//! Fuzzy search across the catalog.
//!
//! Scoring is `nucleo-matcher`'s — the matcher behind Helix/Nucleo — so a
//! query like `dokr` still finds `docker`. Items are matched against a
//! composite haystack (name + id + description) so typing what a tool *does*
//! surfaces it too. Ranking keeps the matches, best score first; equal scores
//! keep the order they came in, and an empty query keeps every candidate in
//! the order given.
use crate::catalog::Item;
use nucleo_matcher::pattern::{CaseMatching, Normalization, Pattern};
use nucleo_matcher::{Config, Matcher, Utf32Str};
use vstd::prelude::*;

verus! {

#[verifier::external_type_specification]
#[verifier::external_body]
pub struct ExMatcher(Matcher);

/// nucleo's score of `haystack` against the query `query` (parsed as a
/// pattern, case ignored, Unicode normalised), `None` when it does not match.
pub uninterp spec fn fuzzy_score(query: Seq<char>, haystack: Seq<char>) -> Option<u32>;

/// `Matcher::new(Config::DEFAULT)`: a matcher with nucleo's default
/// configuration. Nothing is claimed of it: it is only handed back to
/// [`nucleo_score`].
#[verifier::external_body]
fn default_matcher() -> Matcher {
    Matcher::new(Config::DEFAULT)
}

/// `Pattern::parse(query, CaseMatching::Ignore, Normalization::Smart)`
/// scored against `haystack` with `Pattern::score`. Claimed: the result is
/// [`fuzzy_score`] of the query and the haystack — the matcher only lends its
/// scratch space and its (always default) configuration.
#[verifier::external_body]
fn nucleo_score(matcher: &mut Matcher, query: &str, haystack: &str) -> (r: Option<u32>)
    ensures
        r == fuzzy_score(query@, haystack@),
{
    let pattern = Pattern::parse(query, CaseMatching::Ignore, Normalization::Smart);
    let mut buf = Vec::new();
    let hay = Utf32Str::new(haystack, &mut buf);
    pattern.score(hay, matcher)
}

/// The score a search gives: every haystack scores 0 against the empty
/// query; otherwise nucleo's score.
pub open spec fn search_score(query: Seq<char>, haystack: Seq<char>) -> Option<u32> {
    if query.len() == 0 {
        Some(0)
    } else {
        fuzzy_score(query, haystack)
    }
}

/// The candidates that matched, with their scores, in candidate order.
pub open spec fn matches_of<K>(scored: Seq<(K, Option<u32>)>) -> Seq<(K, u32)>
    decreases scored.len(),
{
    if scored.len() == 0 {
        Seq::empty()
    } else {
        let p = matches_of(scored.drop_last());
        match scored.last().1 {
            Some(s) => p.push((scored.last().0, s)),
            None => p,
        }
    }
}

/// The entries of `s` with score `v`, in order.
pub open spec fn with_score<K>(s: Seq<(K, u32)>, v: u32) -> Seq<(K, u32)> {
    s.filter(|x: (K, u32)| x.1 == v)
}

/// `r` is `m` ordered by score, best first, entries of equal score in the
/// order `m` has them.
pub open spec fn ranked_from<K>(r: Seq<(K, u32)>, m: Seq<(K, u32)>) -> bool {
    &&& r.len() == m.len()
    &&& forall|i: int, j: int| 0 <= i < j < r.len() ==> r[i].1 >= r[j].1
    &&& forall|v: u32| #[trigger] with_score(r, v) == with_score(m, v)
}

/// Where an entry of score `v` goes in a best-first list: after every entry
/// scoring at least `v`.
pub open spec fn first_below<K>(s: Seq<(K, u32)>, v: u32) -> int
    decreases s.len(),
{
    if s.len() == 0 {
        0
    } else if s[0].1 >= v {
        1 + first_below(s.drop_first(), v)
    } else {
        0
    }
}

/// The matches ordered best score first, equal scores in their order: each
/// entry in turn placed after every entry scoring at least as much.
pub open spec fn stable_desc<K>(m: Seq<(K, u32)>) -> Seq<(K, u32)>
    decreases m.len(),
{
    if m.len() == 0 {
        m
    } else {
        let p = stable_desc(m.drop_last());
        p.insert(first_below(p, m.last().1), m.last())
    }
}

proof fn lemma_first_below<K>(s: Seq<(K, u32)>, v: u32, p: int)
    requires
        0 <= p <= s.len(),
        forall|q: int| 0 <= q < p ==> s[q].1 >= v,
        p == s.len() || s[p].1 < v,
    ensures
        first_below(s, v) == p,
    decreases p,
{
    if p > 0 {
        let t = s.drop_first();
        assert forall|q: int| 0 <= q < p - 1 implies t[q].1 >= v by {
            assert(t[q] == s[q + 1]);
        }
        if p < s.len() {
            assert(t[p - 1] == s[p]);
        }
        lemma_first_below(t, v, p - 1);
    }
}

/// A reusable fuzzy matcher. Cheap to keep around; expensive to recreate.
pub struct Searcher {
    matcher: Matcher,
}

/// Stable insertion of the matches, best score first.
fn sort_by_score_desc<K: Copy>(m: Vec<(K, u32)>) -> (r: Vec<(K, u32)>)
    ensures
        r@ == stable_desc(m@),
        ranked_from(r@, m@),
{
    let mut out: Vec<(K, u32)> = Vec::new();
    let n = m.len();
    let mut i: usize = 0;
    assert(stable_desc(m@.take(0)) =~= out@) by {
        assert(m@.take(0) =~= Seq::<(K, u32)>::empty());
    }
    assert forall|v: u32| #[trigger] with_score(out@, v) == with_score(m@.take(0), v) by {
        assert(m@.take(0) =~= Seq::<(K, u32)>::empty());
        reveal(Seq::filter);
    }
    while i < n
        invariant
            n == m@.len(),
            i <= n,
            out@.len() == i,
            out@ == stable_desc(m@.take(i as int)),
            forall|a: int, b: int| 0 <= a < b < out@.len() ==> out@[a].1 >= out@[b].1,
            forall|v: u32| #[trigger] with_score(out@, v) == with_score(m@.take(i as int), v),
        decreases n - i,
    {
        let x = m[i];
        let len = out.len();
        let mut p: usize = 0;
        while p < len && out[p].1 >= x.1
            invariant
                len == out@.len(),
                p <= len,
                forall|q: int| 0 <= q < p ==> out@[q].1 >= x.1,
            decreases len - p,
        {
            p = p + 1;
        }
        let ghost o0 = out@;
        proof {
            // everything from p on scores below x
            assert forall|q: int| p <= q < len implies o0[q].1 < x.1 by {
                if p < len {
                    assert(o0[p as int].1 < x.1);
                    if q > p {
                        assert(o0[p as int].1 >= o0[q].1);
                    }
                }
            }
        }
        proof {
            lemma_first_below(o0, x.1, p as int);
            assert(m@.take(i + 1).drop_last() =~= m@.take(i as int));
            assert(m@.take(i + 1).last() == x);
        }
        out.insert(p, x);
        proof {
            let a = o0.take(p as int);
            let b = o0.skip(p as int);
            assert(o0 =~= a + b);
            assert(out@ =~= a.push(x) + b);
            assert(m@.take(i + 1) =~= m@.take(i as int).push(x));
            assert forall|v: u32| #[trigger] with_score(out@, v) == with_score(
                m@.take(i + 1),
                v,
            ) by {
                let pred = |y: (K, u32)| y.1 == v;
                a.lemma_filter_push(x, pred);
                m@.take(i as int).lemma_filter_push(x, pred);
                Seq::filter_distributes_over_add(a.push(x), b, pred);
                Seq::filter_distributes_over_add(a, b, pred);
                assert(with_score(out@, v) == a.push(x).filter(pred) + b.filter(pred));
                assert(with_score(o0, v) == a.filter(pred) + b.filter(pred));
                if v == x.1 {
                    assert(b.all(|y: (K, u32)| !pred(y))) by {
                        assert forall|q: int| 0 <= q < b.len() implies !pred(b[q]) by {
                            assert(b[q] == o0[q + p]);
                        }
                    }
                    b.lemma_all_neg_filter_empty(pred);
                    assert(b.filter(pred) =~= Seq::<(K, u32)>::empty());
                    assert(a.filter(pred).push(x) + b.filter(pred) =~= (a.filter(pred) + b.filter(
                        pred,
                    )).push(x));
                } else {
                    assert(a.push(x).filter(pred) == a.filter(pred));
                }
            }
            assert forall|c: int, d: int| 0 <= c < d < out@.len() implies out@[c].1 >= out@[d].1 by {
                if d < p {
                    assert(out@[c] == o0[c] && out@[d] == o0[d]);
                } else if d == p {
                    assert(out@[c] == o0[c]);
                } else if c == p {
                    assert(out@[d] == o0[d - 1]);
                } else if c < p {
                    assert(out@[c] == o0[c] && out@[d] == o0[d - 1]);
                } else {
                    assert(out@[c] == o0[c - 1] && out@[d] == o0[d - 1]);
                }
            }
        }
        i = i + 1;
    }
    assert(m@.take(n as int) =~= m@);
    out
}

/// Keep the candidates that matched; unless `keep_order`, order them best
/// score first, equal scores in candidate order.
pub fn rank_scored<K: Copy>(scored: &Vec<(K, Option<u32>)>, keep_order: bool) -> (r: Vec<(K, u32)>)
    ensures
        keep_order ==> r@ == matches_of(scored@),
        !keep_order ==> r@ == stable_desc(matches_of(scored@)),
        !keep_order ==> ranked_from(r@, matches_of(scored@)),
{
    let mut m: Vec<(K, u32)> = Vec::new();
    let n = scored.len();
    let mut i: usize = 0;
    while i < n
        invariant
            n == scored@.len(),
            i <= n,
            m@ == matches_of(scored@.take(i as int)),
        decreases n - i,
    {
        let ghost t = scored@.take(i + 1);
        assert(t.drop_last() =~= scored@.take(i as int));
        assert(t.last() == scored@[i as int]);
        match scored[i].1 {
            Some(s) => {
                m.push((scored[i].0, s));
            },
            None => {},
        }
        i = i + 1;
    }
    assert(scored@.take(n as int) =~= scored@);
    if keep_order {
        m
    } else {
        sort_by_score_desc(m)
    }
}

/// The scores of the candidates against a query.
pub open spec fn scored_against<K>(query: Seq<char>, candidates: Seq<(K, &str)>) -> Seq<
    (K, Option<u32>),
> {
    candidates.map_values(|c: (K, &str)| (c.0, search_score(query, c.1@)))
}

impl Searcher {
    pub fn new() -> Self {
        Searcher { matcher: default_matcher() }
    }

    /// Score one haystack against a query. `None` = no match. Higher = better.
    pub fn score(&mut self, query: &str, haystack: &str) -> (r: Option<u32>)
        ensures
            r == search_score(query@, haystack@),
    {
        if query.unicode_len() == 0 {
            return Some(0);
        }
        nucleo_score(&mut self.matcher, query, haystack)
    }

    /// Rank `(key, haystack)` candidates against `query`, best first; equal
    /// scores keep candidate order. An empty query keeps every candidate, in
    /// order (every candidate scores 0).
    pub fn rank<K: Copy>(&mut self, query: &str, candidates: Vec<(K, &str)>) -> (r: Vec<(K, u32)>)
        ensures
            query@.len() == 0 ==> r@ == matches_of(scored_against(query@, candidates@)),
            query@.len() > 0 ==> r@ == stable_desc(matches_of(scored_against(query@, candidates@))),
            query@.len() > 0 ==> ranked_from(r@, matches_of(scored_against(query@, candidates@))),
    {
        let ghost sc = scored_against(query@, candidates@);
        let mut scored: Vec<(K, Option<u32>)> = Vec::new();
        let n = candidates.len();
        let mut i: usize = 0;
        while i < n
            invariant
                n == candidates@.len(),
                sc == scored_against(query@, candidates@),
                i <= n,
                scored@ == sc.take(i as int),
            decreases n - i,
        {
            let s = self.score(query, candidates[i].1);
            scored.push((candidates[i].0, s));
            assert(scored@ =~= sc.take(i + 1));
            i = i + 1;
        }
        assert(sc.take(n as int) =~= sc);
        rank_scored(&scored, query.unicode_len() == 0)
    }
}

/// The composite haystack an item is matched against: name, id and
/// description, separated by spaces.
pub fn haystack(item: &Item) -> (r: String)
    ensures
        r@ == item.name@ + " "@ + item.id@ + " "@ + item.description@,
{
    let mut s = String::new();
    s.append(item.name.as_str());
    s.append(" ");
    s.append(item.id.as_str());
    s.append(" ");
    s.append(item.description.as_str());
    s
}

/// With an empty query every candidate is kept, in the order given.
pub proof fn lemma_empty_query_keeps_all<K>(candidates: Seq<(K, &str)>)
    ensures
        matches_of(scored_against(Seq::<char>::empty(), candidates)) == candidates.map_values(
            |c: (K, &str)| (c.0, 0u32),
        ),
    decreases candidates.len(),
{
    let e = Seq::<char>::empty();
    if candidates.len() > 0 {
        let c1 = candidates.drop_last();
        lemma_empty_query_keeps_all(c1);
        assert(scored_against(e, candidates).drop_last() =~= scored_against(e, c1));
        assert(candidates.map_values(|c: (K, &str)| (c.0, 0u32)) =~= c1.map_values(
            |c: (K, &str)| (c.0, 0u32),
        ).push((candidates.last().0, 0u32)));
    } else {
        assert(candidates.map_values(|c: (K, &str)| (c.0, 0u32)) =~= Seq::<(K, u32)>::empty());
    }
}

/// A ranking is a permutation of the matches: each (key, score) entry occurs
/// as often in the ranking as among the matches.
pub proof fn lemma_ranked_is_permutation<K>(r: Seq<(K, u32)>, m: Seq<(K, u32)>, x: (K, u32))
    requires
        ranked_from(r, m),
    ensures
        r.filter(|y: (K, u32)| y == x).len() == m.filter(|y: (K, u32)| y == x).len(),
{
    let a = with_score(r, x.1);
    let b = with_score(m, x.1);
    assert(a == b);
    lemma_filter_same_score(r, x);
    lemma_filter_same_score(m, x);
}

/// Picking `x` out of a sequence is picking it out of its entries of `x`'s
/// score.
proof fn lemma_filter_same_score<K>(s: Seq<(K, u32)>, x: (K, u32))
    ensures
        s.filter(|y: (K, u32)| y == x) == with_score(s, x.1).filter(|y: (K, u32)| y == x),
    decreases s.len(),
{
    let p = |y: (K, u32)| y == x;
    let q = |y: (K, u32)| y.1 == x.1;
    reveal(Seq::filter);
    if s.len() > 0 {
        lemma_filter_same_score(s.drop_last(), x);
        let l = s.last();
        s.drop_last().lemma_filter_push(l, p);
        s.drop_last().lemma_filter_push(l, q);
        assert(s.drop_last().push(l) =~= s);
        let w = with_score(s.drop_last(), x.1);
        w.lemma_filter_push(l, p);
    }
}

} // verus!
