//! Character-level text helpers with their mathematical models: Unicode
//! white space, trimming, splitting into lines and words, and the code-point
//! order that `String`'s `Ord` uses.
use vstd::prelude::*;

verus! {

/// Unicode `White_Space`, the property `char::is_whitespace` tests.
pub open spec fn is_ws(c: char) -> bool {
    ||| ('\u{9}' <= c && c <= '\u{d}')
    ||| c == ' '
    ||| c == '\u{85}'
    ||| c == '\u{a0}'
    ||| c == '\u{1680}'
    ||| ('\u{2000}' <= c && c <= '\u{200a}')
    ||| c == '\u{2028}'
    ||| c == '\u{2029}'
    ||| c == '\u{202f}'
    ||| c == '\u{205f}'
    ||| c == '\u{3000}'
}

/// Whether `c` is Unicode white space.
pub fn is_space(c: char) -> (r: bool)
    ensures
        r == is_ws(c),
{
    ('\u{9}' <= c && c <= '\u{d}') || c == ' ' || c == '\u{85}' || c == '\u{a0}' || c == '\u{1680}'
        || ('\u{2000}' <= c && c <= '\u{200a}') || c == '\u{2028}' || c == '\u{2029}' || c
        == '\u{202f}' || c == '\u{205f}' || c == '\u{3000}'
}

/// `s` without its leading white space.
pub open spec fn trim_front(s: Seq<char>) -> Seq<char>
    decreases s.len(),
{
    if s.len() > 0 && is_ws(s[0]) {
        trim_front(s.drop_first())
    } else {
        s
    }
}

/// `s` without its trailing white space.
pub open spec fn trim_back(s: Seq<char>) -> Seq<char>
    decreases s.len(),
{
    if s.len() > 0 && is_ws(s.last()) {
        trim_back(s.drop_last())
    } else {
        s
    }
}

/// `s` without leading and trailing white space, as `str::trim` gives it.
pub open spec fn trim(s: Seq<char>) -> Seq<char> {
    trim_back(trim_front(s))
}

pub proof fn lemma_trim_front_at(s: Seq<char>, i: int)
    requires
        0 <= i <= s.len(),
        forall|k: int| 0 <= k < i ==> is_ws(#[trigger] s[k]),
        i == s.len() || !is_ws(s[i]),
    ensures
        trim_front(s) == s.subrange(i, s.len() as int),
    decreases i,
{
    if i == 0 {
        assert(s.subrange(0, s.len() as int) =~= s);
    } else {
        let t = s.drop_first();
        assert forall|k: int| 0 <= k < i - 1 implies is_ws(#[trigger] t[k]) by {
            assert(t[k] == s[k + 1]);
        }
        assert(is_ws(s[0]));
        if i - 1 < t.len() {
            assert(t[i - 1] == s[i]);
        }
        lemma_trim_front_at(t, i - 1);
        assert(t.subrange(i - 1, t.len() as int) =~= s.subrange(i, s.len() as int));
    }
}

pub proof fn lemma_trim_back_at(s: Seq<char>, j: int)
    requires
        0 <= j <= s.len(),
        forall|k: int| j <= k < s.len() ==> is_ws(#[trigger] s[k]),
        j == 0 || !is_ws(s[j - 1]),
    ensures
        trim_back(s) == s.subrange(0, j),
    decreases s.len() - j,
{
    if j == s.len() {
        assert(s.subrange(0, j) =~= s);
    } else {
        let t = s.drop_last();
        assert(is_ws(s[s.len() - 1]));
        assert forall|k: int| j <= k < t.len() implies is_ws(#[trigger] t[k]) by {
            assert(t[k] == s[k]);
        }
        if j > 0 {
            assert(t[j - 1] == s[j - 1]);
        }
        lemma_trim_back_at(t, j);
        assert(t.subrange(0, j) =~= s.subrange(0, j));
    }
}

/// The bounds `(i, j)` of `trim(s)` inside `s`.
pub fn trim_bounds(s: &str) -> (r: (usize, usize))
    ensures
        r.0 <= r.1 <= s@.len(),
        trim(s@) == s@.subrange(r.0 as int, r.1 as int),
{
    let n = s.unicode_len();
    let mut i: usize = 0;
    while i < n && is_space(s.get_char(i))
        invariant
            n == s@.len(),
            i <= n,
            forall|k: int| 0 <= k < i ==> is_ws(#[trigger] s@[k]),
        decreases n - i,
    {
        i = i + 1;
    }
    proof {
        lemma_trim_front_at(s@, i as int);
    }
    let ghost f = s@.subrange(i as int, n as int);
    let mut j: usize = n;
    while j > i && is_space(s.get_char(j - 1))
        invariant
            n == s@.len(),
            i <= j <= n,
            f == s@.subrange(i as int, n as int),
            forall|k: int| j <= k < n ==> is_ws(#[trigger] s@[k]),
        decreases j,
    {
        j = j - 1;
    }
    proof {
        assert forall|k: int| j - i <= k < f.len() implies is_ws(#[trigger] f[k]) by {
            assert(f[k] == s@[k + i]);
        }
        if j > i {
            assert(f[j - i - 1] == s@[j - 1]);
        }
        lemma_trim_back_at(f, j - i);
        assert(f.subrange(0, j - i) =~= s@.subrange(i as int, j as int));
    }
    (i, j)
}

/// `str::trim`: the slice of `s` without leading and trailing white space.
pub fn trim_str(s: &str) -> (r: &str)
    ensures
        r@ == trim(s@),
{
    let (i, j) = trim_bounds(s);
    s.substring_char(i, j)
}


/// The pieces of `s` between occurrences of `sep`, as `str::split(sep)` yields
/// them (always at least one piece).
pub open spec fn split_char(s: Seq<char>, sep: char) -> Seq<Seq<char>>
    decreases s.len(),
{
    if s.len() == 0 {
        seq![Seq::empty()]
    } else {
        let pre = split_char(s.drop_last(), sep);
        if s.last() == sep {
            pre.push(Seq::empty())
        } else {
            pre.update(pre.len() - 1, pre.last().push(s.last()))
        }
    }
}

pub proof fn lemma_split_char_nonempty(s: Seq<char>, sep: char)
    ensures
        split_char(s, sep).len() >= 1,
    decreases s.len(),
{
    if s.len() > 0 {
        lemma_split_char_nonempty(s.drop_last(), sep);
    }
}

pub open spec fn views_of(v: Seq<&str>) -> Seq<Seq<char>> {
    v.map_values(|x: &str| x@)
}

pub open spec fn string_views(v: Seq<String>) -> Seq<Seq<char>> {
    v.map_values(|x: String| x@)
}

/// `str::split(sep)` collected: the pieces of `s` between the `sep` characters.
pub fn split_on(s: &str, sep: char) -> (r: Vec<&str>)
    ensures
        views_of(r@) == split_char(s@, sep),
{
    let n = s.unicode_len();
    let mut parts: Vec<&str> = Vec::new();
    let mut start: usize = 0;
    let mut i: usize = 0;
    assert(s@.take(0) =~= Seq::<char>::empty());
    assert(views_of(parts@).push(s@.subrange(0, 0)) =~= seq![Seq::<char>::empty()]);
    while i < n
        invariant
            n == s@.len(),
            start <= i <= n,
            split_char(s@.take(i as int), sep) == views_of(parts@).push(
                s@.subrange(start as int, i as int),
            ),
        decreases n - i,
    {
        let c = s.get_char(i);
        let ghost pre = split_char(s@.take(i as int), sep);
        assert(s@.take(i + 1).drop_last() =~= s@.take(i as int));
        assert(s@.take(i + 1).last() == c);
        if c == sep {
            let piece = s.substring_char(start, i);
            parts.push(piece);
            start = i + 1;
            assert(views_of(parts@) =~= pre);
            assert(s@.subrange(start as int, i + 1) =~= Seq::<char>::empty());
        } else {
            assert(s@.subrange(start as int, i + 1) =~= s@.subrange(start as int, i as int).push(c));
            assert(views_of(parts@).push(s@.subrange(start as int, i + 1)) =~= pre.update(
                pre.len() - 1,
                pre.last().push(c),
            ));
        }
        i = i + 1;
    }
    let last = s.substring_char(start, n);
    parts.push(last);
    assert(s@.take(n as int) =~= s@);
    assert(views_of(parts@) =~= split_char(s@, sep));
    parts
}

/// The maximal runs of non-white-space characters of `s`, as
/// `str::split_whitespace` yields them.
pub open spec fn words(s: Seq<char>) -> Seq<Seq<char>>
    decreases s.len(),
{
    if s.len() == 0 {
        Seq::empty()
    } else {
        let pre = words(s.drop_last());
        let c = s.last();
        if is_ws(c) {
            pre
        } else if s.len() >= 2 && !is_ws(s[s.len() - 2]) && pre.len() > 0 {
            pre.update(pre.len() - 1, pre.last().push(c))
        } else {
            pre.push(seq![c])
        }
    }
}

/// `str::split_whitespace` collected into owned strings.
pub fn split_words(s: &str) -> (r: Vec<String>)
    ensures
        string_views(r@) == words(s@),
{
    let n = s.unicode_len();
    let mut out: Vec<String> = Vec::new();
    let mut start: usize = 0;
    let mut in_word = false;
    let mut i: usize = 0;
    while i < n
        invariant
            n == s@.len(),
            start <= i <= n,
            in_word ==> start < i,
            in_word <==> (i > 0 && !is_ws(s@[i - 1])),
            in_word ==> words(s@.take(i as int)) == string_views(out@).push(
                s@.subrange(start as int, i as int),
            ),
            !in_word ==> words(s@.take(i as int)) == string_views(out@),
        decreases n - i,
    {
        let c = s.get_char(i);
        let ghost pre = words(s@.take(i as int));
        assert(s@.take(i + 1).drop_last() =~= s@.take(i as int));
        assert(s@.take(i + 1).last() == c);
        if is_space(c) {
            if in_word {
                let w = s.substring_char(start, i).to_owned();
                out.push(w);
                assert(string_views(out@) =~= pre);
            }
            in_word = false;
        } else {
            if in_word {
                assert(s@.take(i + 1)[i - 1] == s@[i - 1]);
                assert(s@.subrange(start as int, i + 1) =~= s@.subrange(start as int, i as int).push(
                    c,
                ));
                assert(string_views(out@).push(s@.subrange(start as int, i + 1)) =~= pre.update(
                    pre.len() - 1,
                    pre.last().push(c),
                ));
            } else {
                if i > 0 {
                    assert(s@.take(i + 1)[i - 1] == s@[i - 1]);
                }
                start = i;
                assert(s@.subrange(start as int, i + 1) =~= seq![c]);
            }
            in_word = true;
        }
        i = i + 1;
    }
    if in_word {
        let w = s.substring_char(start, n).to_owned();
        out.push(w);
    }
    assert(s@.take(n as int) =~= s@);
    out
}

/// Strict lexicographic order on code points: the order of `String`'s `Ord`
/// (UTF-8 byte order and code-point order agree).
pub open spec fn lex_lt(a: Seq<char>, b: Seq<char>) -> bool
    decreases a.len(),
{
    if a.len() == 0 {
        b.len() > 0
    } else if b.len() == 0 {
        false
    } else if a[0] != b[0] {
        a[0] < b[0]
    } else {
        lex_lt(a.drop_first(), b.drop_first())
    }
}

pub proof fn lemma_lex_irreflexive(a: Seq<char>)
    ensures
        !lex_lt(a, a),
    decreases a.len(),
{
    if a.len() > 0 {
        lemma_lex_irreflexive(a.drop_first());
    }
}

pub proof fn lemma_lex_asymmetric(a: Seq<char>, b: Seq<char>)
    ensures
        !(lex_lt(a, b) && lex_lt(b, a)),
    decreases a.len(),
{
    if a.len() > 0 && b.len() > 0 && a[0] == b[0] {
        lemma_lex_asymmetric(a.drop_first(), b.drop_first());
    }
}

pub proof fn lemma_lex_transitive(a: Seq<char>, b: Seq<char>, c: Seq<char>)
    requires
        lex_lt(a, b),
        lex_lt(b, c),
    ensures
        lex_lt(a, c),
    decreases a.len(),
{
    if a.len() > 0 && b.len() > 0 && c.len() > 0 && a[0] == b[0] && b[0] == c[0] {
        lemma_lex_transitive(a.drop_first(), b.drop_first(), c.drop_first());
    }
}

pub proof fn lemma_lex_total(a: Seq<char>, b: Seq<char>)
    ensures
        a == b || lex_lt(a, b) || lex_lt(b, a),
    decreases a.len(),
{
    if a.len() > 0 && b.len() > 0 && a[0] == b[0] {
        lemma_lex_total(a.drop_first(), b.drop_first());
        if a.drop_first() == b.drop_first() {
            assert(a =~= seq![a[0]] + a.drop_first());
            assert(b =~= seq![b[0]] + b.drop_first());
        }
    } else if a.len() == 0 && b.len() == 0 {
        assert(a =~= b);
    }
}

/// Three-way outcome of comparing two texts.
#[derive(Debug, Clone, Copy, PartialEq, Eq, Structural)]
pub enum TextOrder {
    Before,
    Same,
    After,
}

/// Compare two texts in code-point order.
pub fn compare_text(a: &str, b: &str) -> (r: TextOrder)
    ensures
        r == TextOrder::Before <==> lex_lt(a@, b@),
        r == TextOrder::Same <==> a@ == b@,
        r == TextOrder::After <==> lex_lt(b@, a@),
{
    let n = a.unicode_len();
    let m = b.unicode_len();
    let mut i: usize = 0;
    proof {
        lemma_lex_irreflexive(a@);
        lemma_lex_asymmetric(a@, b@);
        lemma_lex_total(a@, b@);
        assert(a@.skip(0) =~= a@);
        assert(b@.skip(0) =~= b@);
    }
    while i < n && i < m
        invariant
            n == a@.len(),
            m == b@.len(),
            i <= n,
            i <= m,
            a@.take(i as int) == b@.take(i as int),
            lex_lt(a@, b@) == lex_lt(a@.skip(i as int), b@.skip(i as int)),
            lex_lt(b@, a@) == lex_lt(b@.skip(i as int), a@.skip(i as int)),
        decreases n - i,
    {
        let x = a.get_char(i);
        let y = b.get_char(i);
        assert(a@.skip(i as int)[0] == x);
        assert(b@.skip(i as int)[0] == y);
        if x < y {
            return TextOrder::Before;
        } else if y < x {
            return TextOrder::After;
        }
        assert(a@.skip(i as int).drop_first() =~= a@.skip(i + 1));
        assert(b@.skip(i as int).drop_first() =~= b@.skip(i + 1));
        assert(a@.take(i + 1) =~= a@.take(i as int).push(x));
        assert(b@.take(i + 1) =~= b@.take(i as int).push(y));
        i = i + 1;
    }
    if n == m {
        assert(a@ =~= a@.take(i as int));
        assert(b@ =~= b@.take(i as int));
        TextOrder::Same
    } else if i == n {
        assert(a@.skip(i as int).len() == 0);
        TextOrder::Before
    } else {
        assert(b@.skip(i as int).len() == 0);
        TextOrder::After
    }
}

/// Whether two texts are equal, character for character.
pub fn same_text(a: &str, b: &str) -> (r: bool)
    ensures
        r == (a@ == b@),
{
    compare_text(a, b) == TextOrder::Same
}

/// The index of the first `c` in `s`, if any.
pub fn find_char(s: &str, c: char) -> (r: Option<usize>)
    ensures
        match r {
            Some(i) => i < s@.len() && s@[i as int] == c && forall|k: int|
                0 <= k < i ==> s@[k] != c,
            None => forall|k: int| 0 <= k < s@.len() ==> s@[k] != c,
        },
{
    let n = s.unicode_len();
    let mut i: usize = 0;
    while i < n
        invariant
            n == s@.len(),
            i <= n,
            forall|k: int| 0 <= k < i ==> s@[k] != c,
        decreases n - i,
    {
        if s.get_char(i) == c {
            return Some(i);
        }
        i = i + 1;
    }
    None
}

/// Whether `p` is a prefix of `s`.
pub open spec fn has_prefix(s: Seq<char>, p: Seq<char>) -> bool {
    p.len() <= s.len() && s.take(p.len() as int) == p
}

/// `str::starts_with` for a text prefix.
pub fn starts_with(s: &str, p: &str) -> (r: bool)
    ensures
        r == has_prefix(s@, p@),
{
    let n = s.unicode_len();
    let m = p.unicode_len();
    if m > n {
        return false;
    }
    let mut i: usize = 0;
    while i < m
        invariant
            n == s@.len(),
            m == p@.len(),
            m <= n,
            i <= m,
            forall|k: int| 0 <= k < i ==> s@[k] == p@[k],
        decreases m - i,
    {
        if s.get_char(i) != p.get_char(i) {
            assert(s@.take(m as int)[i as int] != p@[i as int]);
            return false;
        }
        i = i + 1;
    }
    assert(s@.take(m as int) =~= p@);
    true
}

/// `str::strip_prefix`.
pub fn strip_prefix<'a>(s: &'a str, p: &str) -> (r: Option<&'a str>)
    ensures
        has_prefix(s@, p@) ==> (r matches Some(t) && t@ == s@.skip(p@.len() as int)),
        !has_prefix(s@, p@) ==> r is None,
{
    if starts_with(s, p) {
        let n = s.unicode_len();
        let m = p.unicode_len();
        Some(s.substring_char(m, n))
    } else {
        None
    }
}

/// `parts` joined with `sep` between consecutive parts.
pub open spec fn join(parts: Seq<Seq<char>>, sep: Seq<char>) -> Seq<char>
    decreases parts.len(),
{
    if parts.len() == 0 {
        Seq::empty()
    } else if parts.len() == 1 {
        parts[0]
    } else {
        join(parts.drop_last(), sep) + sep + parts.last()
    }
}

/// `[String]::join(sep)`.
pub fn join_strings(parts: &Vec<String>, sep: &str) -> (r: String)
    ensures
        r@ == join(string_views(parts@), sep@),
{
    let mut out = String::new();
    let n = parts.len();
    let mut i: usize = 0;
    while i < n
        invariant
            n == parts@.len(),
            i <= n,
            out@ == join(string_views(parts@.take(i as int)), sep@),
        decreases n - i,
    {
        let ghost before = string_views(parts@.take(i as int));
        let ghost after = string_views(parts@.take(i + 1));
        assert(after.drop_last() =~= before);
        assert(after.last() == parts@[i as int]@);
        if i > 0 {
            out.append(sep);
        } else {
            assert(out@ =~= Seq::<char>::empty());
        }
        out.append(parts[i].as_str());
        assert(out@ =~= join(after, sep@));
        i = i + 1;
    }
    assert(parts@.take(n as int) =~= parts@);
    out
}


/// A non-empty run of non-white-space characters.
pub open spec fn is_word(w: Seq<char>) -> bool {
    w.len() > 0 && forall|k: int| 0 <= k < w.len() ==> !is_ws(#[trigger] w[k])
}

pub proof fn lemma_trim_front_len(s: Seq<char>)
    ensures
        trim_front(s).len() <= s.len(),
        trim_front(s).len() == s.len() ==> trim_front(s) == s,
        trim_front(s).len() == s.len() && s.len() > 0 ==> !is_ws(s[0]),
    decreases s.len(),
{
    if s.len() > 0 && is_ws(s[0]) {
        lemma_trim_front_len(s.drop_first());
    }
}

pub proof fn lemma_trim_back_len(s: Seq<char>)
    ensures
        trim_back(s).len() <= s.len(),
        trim_back(s).len() == s.len() ==> trim_back(s) == s,
        trim_back(s).len() == s.len() && s.len() > 0 ==> !is_ws(s.last()),
    decreases s.len(),
{
    if s.len() > 0 && is_ws(s.last()) {
        lemma_trim_back_len(s.drop_last());
    }
}

/// Trimming never lengthens, and a trim that keeps the length keeps the text.
pub proof fn lemma_trim_len(s: Seq<char>)
    ensures
        trim(s).len() <= s.len(),
        trim(s).len() == s.len() ==> trim(s) == s,
        trim(s).len() == s.len() && s.len() > 0 ==> !is_ws(s[0]) && !is_ws(s.last()),
{
    lemma_trim_front_len(s);
    lemma_trim_back_len(trim_front(s));
}

/// A text that neither starts nor ends with white space is its own trim.
pub proof fn lemma_trim_fixed(s: Seq<char>)
    requires
        s.len() > 0,
        !is_ws(s[0]),
        !is_ws(s.last()),
    ensures
        trim(s) == s,
{
}

/// Trimming keeps a non-white-space first character in front.
pub proof fn lemma_trim_keeps_head(s: Seq<char>)
    requires
        s.len() > 0,
        !is_ws(s[0]),
    ensures
        trim(s).len() > 0,
        trim(s)[0] == s[0],
    decreases s.len(),
{
    assert(trim_front(s) == s);
    lemma_trim_back_head(s);
}

proof fn lemma_trim_back_head(s: Seq<char>)
    requires
        s.len() > 0,
        !is_ws(s[0]),
    ensures
        trim_back(s).len() > 0,
        trim_back(s)[0] == s[0],
    decreases s.len(),
{
    if is_ws(s.last()) {
        assert(s.len() > 1);
        assert(s.drop_last()[0] == s[0]);
        lemma_trim_back_head(s.drop_last());
    }
}

/// Cutting after a piece without `sep` extends the last piece.
pub proof fn lemma_split_char_extend(x: Seq<char>, y: Seq<char>, sep: char)
    requires
        forall|k: int| 0 <= k < y.len() ==> y[k] != sep,
    ensures
        split_char(x + y, sep) == split_char(x, sep).update(
            split_char(x, sep).len() - 1,
            split_char(x, sep).last() + y,
        ),
    decreases y.len(),
{
    lemma_split_char_nonempty(x, sep);
    let p = split_char(x, sep);
    if y.len() == 0 {
        assert(x + y =~= x);
        assert(p.last() + y =~= p.last());
        assert(p.update(p.len() - 1, p.last()) =~= p);
    } else {
        let y1 = y.drop_last();
        assert forall|k: int| 0 <= k < y1.len() implies y1[k] != sep by {
            assert(y1[k] == y[k]);
        }
        lemma_split_char_extend(x, y1, sep);
        assert((x + y).drop_last() =~= x + y1);
        assert((x + y).last() == y.last());
        assert(p.last() + y1 + seq![y.last()] =~= p.last() + y);
        let q = p.update(p.len() - 1, p.last() + y1);
        assert(q.len() == p.len());
        assert(q.last() == p.last() + y1);
        assert((p.last() + y1).push(y.last()) =~= p.last() + y);
        assert(q.update(q.len() - 1, q.last().push(y.last())) =~= p.update(
            p.len() - 1,
            p.last() + y,
        ));
    }
}

/// Cutting lines, each followed by a line end, gives back the lines and a
/// final empty piece.
pub proof fn lemma_split_joined_lines(ls: Seq<Seq<char>>, sep: char, text: Seq<char>)
    requires
        forall|i: int, k: int| 0 <= i < ls.len() && 0 <= k < ls[i].len() ==> ls[i][k] != sep,
        text == joined_lines(ls, sep),
    ensures
        split_char(text, sep) == ls.push(Seq::empty()),
    decreases ls.len(),
{
    if ls.len() == 0 {
        assert(split_char(text, sep) =~= ls.push(Seq::empty()));
    } else {
        let pre = ls.drop_last();
        let l = ls.last();
        assert forall|i: int, k: int| 0 <= i < pre.len() && 0 <= k < pre[i].len() implies pre[i][k]
            != sep by {
            assert(pre[i] == ls[i]);
        }
        lemma_split_joined_lines(pre, sep, joined_lines(pre, sep));
        let t0 = joined_lines(pre, sep);
        assert forall|k: int| 0 <= k < l.len() implies l[k] != sep by {
            assert(ls[ls.len() - 1] == l);
        }
        lemma_split_char_extend(t0, l, sep);
        assert(text =~= (t0 + l).push(sep));
        assert(text.drop_last() =~= t0 + l);
        let p = pre.push(Seq::<char>::empty());
        assert(p.update(p.len() - 1, p.last() + l) =~= ls);
    }
}

/// Lines, each followed by `sep`.
pub open spec fn joined_lines(ls: Seq<Seq<char>>, sep: char) -> Seq<char>
    decreases ls.len(),
{
    if ls.len() == 0 {
        Seq::empty()
    } else {
        joined_lines(ls.drop_last(), sep) + ls.last() + seq![sep]
    }
}

/// A text ending in a non-white-space character has at least one word.
pub proof fn lemma_words_nonempty(s: Seq<char>)
    requires
        s.len() > 0,
        !is_ws(s.last()),
    ensures
        words(s).len() > 0,
{
}

/// Words of a concatenation split at white space are the words of each part.
pub proof fn lemma_words_concat(x: Seq<char>, y: Seq<char>)
    requires
        x.len() == 0 || is_ws(x.last()),
    ensures
        words(x + y) == words(x) + words(y),
    decreases y.len(),
{
    if y.len() == 0 {
        assert(x + y =~= x);
        assert(words(x) + words(y) =~= words(x));
    } else {
        let y1 = y.drop_last();
        let c = y.last();
        lemma_words_concat(x, y1);
        assert((x + y).drop_last() =~= x + y1);
        assert((x + y).last() == c);
        let wx = words(x);
        let w1 = words(y1);
        if !is_ws(c) {
            if y.len() >= 2 && !is_ws(y[y.len() - 2]) {
                assert(y1.last() == y[y.len() - 2]);
                lemma_words_nonempty(y1);
                assert((x + y)[(x + y).len() - 2] == y[y.len() - 2]);
                assert((wx + w1).update((wx + w1).len() - 1, (wx + w1).last().push(c)) =~= wx
                    + w1.update(w1.len() - 1, w1.last().push(c)));
            } else {
                if y.len() >= 2 {
                    assert((x + y)[(x + y).len() - 2] == y[y.len() - 2]);
                } else if x.len() > 0 {
                    assert((x + y)[(x + y).len() - 2] == x.last());
                }
                assert((wx + w1).push(seq![c]) =~= wx + w1.push(seq![c]));
            }
        }
    }
}

/// A word is its own only word.
pub proof fn lemma_words_single(w: Seq<char>)
    requires
        is_word(w),
    ensures
        words(w) == seq![w],
    decreases w.len(),
{
    if w.len() == 1 {
        assert(w.drop_last() =~= Seq::<char>::empty());
        assert(words(w.drop_last()) =~= Seq::<Seq<char>>::empty());
        assert(seq![w.last()] =~= w);
        assert(Seq::<Seq<char>>::empty().push(seq![w.last()]) =~= seq![w]);
    } else {
        let w1 = w.drop_last();
        assert(is_word(w1)) by {
            assert forall|k: int| 0 <= k < w1.len() implies !is_ws(#[trigger] w1[k]) by {
                assert(w1[k] == w[k]);
            }
        }
        lemma_words_single(w1);
        assert(!is_ws(w[w.len() - 2]));
        assert(!is_ws(w.last()));
        assert(w1.push(w.last()) =~= w);
        assert(seq![w1].update(0, w1.push(w.last())) =~= seq![w]);
    }
}

/// Splitting words joined by single spaces gives them back.
pub proof fn lemma_words_join(ws: Seq<Seq<char>>)
    requires
        forall|i: int| 0 <= i < ws.len() ==> is_word(#[trigger] ws[i]),
    ensures
        words(join(ws, " "@)) == ws,
    decreases ws.len(),
{
    reveal_strlit(" ");
    if ws.len() == 0 {
        assert(words(Seq::<char>::empty()) =~= ws);
    } else if ws.len() == 1 {
        lemma_words_single(ws[0]);
        assert(seq![ws[0]] =~= ws);
    } else {
        let w1 = ws.drop_last();
        assert forall|i: int| 0 <= i < w1.len() implies is_word(#[trigger] w1[i]) by {
            assert(w1[i] == ws[i]);
        }
        lemma_words_join(w1);
        let x = join(w1, " "@) + " "@;
        assert(is_ws(x.last()));
        lemma_words_concat(x, ws.last());
        assert(x.drop_last() =~= join(w1, " "@));
        assert(is_ws(" "@[0]));
        lemma_words_single(ws.last());
        assert(ws.last() == ws[ws.len() - 1]);
        assert(w1.push(ws.last()) =~= ws);
        assert(seq![ws.last()] =~= Seq::<Seq<char>>::empty().push(ws.last()));
    }
}


/// Order by a small rank first, then by text in code-point order: the order
/// of a `(rank, String)` key.
pub open spec fn rank_lt(ra: int, a: Seq<char>, rb: int, b: Seq<char>) -> bool {
    ra < rb || (ra == rb && lex_lt(a, b))
}

pub proof fn lemma_rank_order(ra: int, a: Seq<char>, rb: int, b: Seq<char>, rc: int, c: Seq<char>)
    ensures
        !rank_lt(ra, a, ra, a),
        !(rank_lt(ra, a, rb, b) && rank_lt(rb, b, ra, a)),
        rank_lt(ra, a, rb, b) && rank_lt(rb, b, rc, c) ==> rank_lt(ra, a, rc, c),
        (ra == rb && a == b) || rank_lt(ra, a, rb, b) || rank_lt(rb, b, ra, a),
{
    lemma_lex_irreflexive(a);
    lemma_lex_asymmetric(a, b);
    lemma_lex_total(a, b);
    if rank_lt(ra, a, rb, b) && rank_lt(rb, b, rc, c) && ra == rb && rb == rc {
        lemma_lex_transitive(a, b, c);
    }
}


/// What passes `pred` in `s` with `x` pushed on the end.
pub proof fn lemma_filter_push<A>(s: Seq<A>, x: A, pred: spec_fn(A) -> bool)
    ensures
        s.push(x).filter(pred) == (if pred(x) {
            s.filter(pred).push(x)
        } else {
            s.filter(pred)
        }),
{
    reveal_with_fuel(Seq::filter, 1);
    assert(s.push(x).drop_last() =~= s);
    assert(s.push(x).last() == x);
}

/// What passes `pred` in `s` with `x` put at `p`, where, if `x` passes,
/// nothing from `p` on does: `x` comes last among those that pass.
pub proof fn lemma_filter_insert<A>(s: Seq<A>, p: int, x: A, pred: spec_fn(A) -> bool)
    requires
        0 <= p <= s.len(),
        pred(x) ==> forall|j: int| p <= j < s.len() ==> !pred(#[trigger] s[j]),
    ensures
        s.insert(p, x).filter(pred) == (if pred(x) {
            s.filter(pred).push(x)
        } else {
            s.filter(pred)
        }),
{
    let a = s.take(p);
    let b = s.skip(p);
    assert(s =~= a + b);
    assert(s.insert(p, x) =~= a.push(x) + b);
    Seq::filter_distributes_over_add(a, b, pred);
    Seq::filter_distributes_over_add(a.push(x), b, pred);
    lemma_filter_push(a, x, pred);
    if pred(x) {
        assert(b.all(|y: A| !pred(y))) by {
            assert forall|i: int| 0 <= i < b.len() implies !pred(#[trigger] b[i]) by {
                assert(b[i] == s[p + i]);
            }
        }
        b.lemma_all_neg_filter_empty(pred);
        assert(b.filter(pred) =~= Seq::<A>::empty());
        assert(a.filter(pred) + b.filter(pred) =~= a.filter(pred));
        assert(a.filter(pred).push(x) + b.filter(pred) =~= a.filter(pred).push(x));
    }
}


/// `s` without its leading `c`s.
pub open spec fn strip_front(s: Seq<char>, c: char) -> Seq<char>
    decreases s.len(),
{
    if s.len() > 0 && s[0] == c {
        strip_front(s.drop_first(), c)
    } else {
        s
    }
}

/// `s` without its trailing `c`s.
pub open spec fn strip_back(s: Seq<char>, c: char) -> Seq<char>
    decreases s.len(),
{
    if s.len() > 0 && s.last() == c {
        strip_back(s.drop_last(), c)
    } else {
        s
    }
}

pub proof fn lemma_strip_front_at(s: Seq<char>, c: char, i: int)
    requires
        0 <= i <= s.len(),
        forall|k: int| 0 <= k < i ==> #[trigger] s[k] == c,
        i == s.len() || s[i] != c,
    ensures
        strip_front(s, c) == s.subrange(i, s.len() as int),
    decreases i,
{
    if i == 0 {
        assert(s.subrange(0, s.len() as int) =~= s);
    } else {
        let t = s.drop_first();
        assert forall|k: int| 0 <= k < i - 1 implies #[trigger] t[k] == c by {
            assert(t[k] == s[k + 1]);
        }
        if i - 1 < t.len() {
            assert(t[i - 1] == s[i]);
        }
        lemma_strip_front_at(t, c, i - 1);
        assert(t.subrange(i - 1, t.len() as int) =~= s.subrange(i, s.len() as int));
    }
}

pub proof fn lemma_strip_back_at(s: Seq<char>, c: char, j: int)
    requires
        0 <= j <= s.len(),
        forall|k: int| j <= k < s.len() ==> #[trigger] s[k] == c,
        j == 0 || s[j - 1] != c,
    ensures
        strip_back(s, c) == s.subrange(0, j),
    decreases s.len() - j,
{
    if j == s.len() {
        assert(s.subrange(0, j) =~= s);
    } else {
        let t = s.drop_last();
        assert forall|k: int| j <= k < t.len() implies #[trigger] t[k] == c by {
            assert(t[k] == s[k]);
        }
        if j > 0 {
            assert(t[j - 1] == s[j - 1]);
        }
        lemma_strip_back_at(t, c, j);
        assert(t.subrange(0, j) =~= s.subrange(0, j));
    }
}

/// `str::trim_start_matches(c)`.
pub fn strip_front_str(s: &str, c: char) -> (r: &str)
    ensures
        r@ == strip_front(s@, c),
{
    let n = s.unicode_len();
    let mut i: usize = 0;
    while i < n && s.get_char(i) == c
        invariant
            n == s@.len(),
            i <= n,
            forall|k: int| 0 <= k < i ==> #[trigger] s@[k] == c,
        decreases n - i,
    {
        i = i + 1;
    }
    proof {
        lemma_strip_front_at(s@, c, i as int);
    }
    s.substring_char(i, n)
}

/// `str::trim_matches(c)`: without leading and trailing `c`s.
pub fn strip_both_str(s: &str, c: char) -> (r: &str)
    ensures
        r@ == strip_back(strip_front(s@, c), c),
{
    let f = strip_front_str(s, c);
    let n = f.unicode_len();
    let mut j: usize = n;
    while j > 0 && f.get_char(j - 1) == c
        invariant
            n == f@.len(),
            j <= n,
            forall|k: int| j <= k < n ==> #[trigger] f@[k] == c,
        decreases j,
    {
        j = j - 1;
    }
    proof {
        lemma_strip_back_at(f@, c, j as int);
    }
    f.substring_char(0, j)
}


/// `String::push`: appends `c` to `s`. Claimed, as std documents it: the
/// text afterwards is the old text followed by `c`.
#[verifier::external_body]
pub(crate) fn push_char(s: &mut String, c: char)
    ensures
        final(s)@ == old(s)@.push(c),
{
    s.push(c);
}

/// `s` without its last character (unchanged when empty).
pub open spec fn popped(s: Seq<char>) -> Seq<char> {
    if s.len() > 0 {
        s.drop_last()
    } else {
        s
    }
}

/// Drop the last character of `s`, if any.
pub fn pop_char(s: &mut String)
    ensures
        final(s)@ == popped(old(s)@),
{
    let n = s.as_str().unicode_len();
    if n > 0 {
        let t = s.as_str().substring_char(0, n - 1).to_owned();
        *s = t;
        assert(final(s)@ =~= popped(old(s)@));
    }
}


/// The character of decimal digit `d`.
pub open spec fn digit_of(d: nat) -> char {
    if d == 0 {
        '0'
    } else if d == 1 {
        '1'
    } else if d == 2 {
        '2'
    } else if d == 3 {
        '3'
    } else if d == 4 {
        '4'
    } else if d == 5 {
        '5'
    } else if d == 6 {
        '6'
    } else if d == 7 {
        '7'
    } else if d == 8 {
        '8'
    } else {
        '9'
    }
}

/// `n` in decimal, as `{}` formats it.
pub open spec fn decimal(n: nat) -> Seq<char>
    decreases n,
{
    if n < 10 {
        seq![digit_of(n)]
    } else {
        decimal(n / 10).push(digit_of(n % 10))
    }
}

/// `i` in decimal, a `-` before a negative one.
pub open spec fn signed_decimal(i: int) -> Seq<char> {
    if i < 0 {
        seq!['-'] + decimal((-i) as nat)
    } else {
        decimal(i as nat)
    }
}

fn digit_char(d: u64) -> (c: char)
    requires
        d < 10,
    ensures
        c == digit_of(d as nat),
{
    if d == 0 {
        '0'
    } else if d == 1 {
        '1'
    } else if d == 2 {
        '2'
    } else if d == 3 {
        '3'
    } else if d == 4 {
        '4'
    } else if d == 5 {
        '5'
    } else if d == 6 {
        '6'
    } else if d == 7 {
        '7'
    } else if d == 8 {
        '8'
    } else {
        '9'
    }
}

/// Append `n` in decimal to `s`.
pub fn push_decimal(s: &mut String, n: u64)
    ensures
        final(s)@ == old(s)@ + decimal(n as nat),
    decreases n,
{
    if n >= 10 {
        push_decimal(s, n / 10);
    }
    push_char(s, digit_char(n % 10));
    assert(final(s)@ =~= old(s)@ + decimal(n as nat));
}

/// Append `i` in decimal to `s`, a `-` before a negative one.
pub fn push_signed(s: &mut String, i: i32)
    ensures
        final(s)@ == old(s)@ + signed_decimal(i as int),
{
    if i < 0 {
        push_char(s, '-');
        let m: i64 = -(i as i64);
        push_decimal(s, m as u64);
        assert(final(s)@ =~= old(s)@ + signed_decimal(i as int));
    } else {
        push_decimal(s, i as u64);
    }
}

} // verus!
