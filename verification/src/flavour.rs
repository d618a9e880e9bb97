//! Flavours — named premade setups shown on the picker's "Presets" screen: a
//! seed of catalog ids + theme + glass + toggles.
use crate::catalog::Catalog;
use crate::selection::Toggles;
use crate::text::{
    compare_text, lemma_filter_insert, lemma_filter_push, lemma_rank_order, rank_lt, same_text,
    string_views, TextOrder,
};
use vstd::prelude::*;

verus! {

/// A premade setup.
#[derive(Debug, Clone, PartialEq, Eq)]
pub struct Flavour {
    pub id: String,
    pub title: String,
    pub desc: String,
    pub theme: String,
    pub glass: bool,
    pub ricing: bool,
    pub macos_defaults: bool,
    pub power: bool,
    pub schedule: bool,
    pub dock: bool,
    pub ids: Vec<String>,
}

/// The theme a flavour file without one gets.
pub fn default_theme() -> (r: String)
    ensures
        r@ == "tokyonight"@,
{
    "tokyonight".to_owned()
}

/// Whether some catalog item has id `id`.
pub open spec fn in_catalog(catalog: Catalog, id: Seq<char>) -> bool {
    exists|k: int| 0 <= k < catalog.items@.len() && catalog.items@[k].id@ == id
}

impl Flavour {
    /// The toggles this flavour turns on or off.
    pub fn toggles(&self) -> (r: Toggles)
        ensures
            r == (Toggles {
                ricing: self.ricing,
                macos_defaults: self.macos_defaults,
                power: self.power,
                schedule: self.schedule,
                dock: self.dock,
            }),
    {
        Toggles {
            ricing: self.ricing,
            macos_defaults: self.macos_defaults,
            power: self.power,
            schedule: self.schedule,
            dock: self.dock,
        }
    }

    /// Ids referenced by this flavour that don't exist in the catalog, in the
    /// flavour's order.
    pub fn unknown_ids<'a>(&'a self, catalog: &Catalog) -> (r: Vec<&'a str>)
        ensures
            r@.map_values(|x: &str| x@) == string_views(self.ids@).filter(
                |id: Seq<char>| !in_catalog(*catalog, id),
            ),
    {
        let ghost pred = |id: Seq<char>| !in_catalog(*catalog, id);
        let ghost v = string_views(self.ids@);
        let mut out: Vec<&'a str> = Vec::new();
        let n = self.ids.len();
        let mut k: usize = 0;
        while k < n
            invariant
                n == self.ids@.len(),
                v == string_views(self.ids@),
                k <= n,
                pred == (|id: Seq<char>| !in_catalog(*catalog, id)),
                out@.map_values(|x: &str| x@) == v.take(k as int).filter(pred),
            decreases n - k,
        {
            proof {
                assert(v.take(k + 1) =~= v.take(k as int).push(v[k as int]));
                v.take(k as int).lemma_filter_push(v[k as int], pred);
            }
            let ghost o0 = out@;
            match catalog.get(self.ids[k].as_str()) {
                Some(_) => {},
                None => {
                    out.push(self.ids[k].as_str());
                    assert(out@.map_values(|x: &str| x@) =~= o0.map_values(|x: &str| x@).push(
                        v[k as int],
                    ));
                },
            }
            k = k + 1;
        }
        assert(v.take(n as int) =~= v);
        out
    }
}

/// Presets-screen rank of a flavour id: Jack's first, then the rest.
pub open spec fn flavour_rank(id: Seq<char>) -> int {
    if id == "jack"@ {
        0
    } else {
        1
    }
}

/// `a` goes before `b` on the Presets screen: by rank, then by id.
pub open spec fn flavour_before(a: Flavour, b: Flavour) -> bool {
    rank_lt(flavour_rank(a.id@), a.id@, flavour_rank(b.id@), b.id@)
}

fn rank_of(id: &str) -> (r: u8)
    ensures
        r == flavour_rank(id@),
{
    if same_text(id, "jack") {
        0
    } else {
        1
    }
}

fn before(a: &Flavour, b: &Flavour) -> (r: bool)
    ensures
        r == flavour_before(*a, *b),
{
    let ra = rank_of(a.id.as_str());
    let rb = rank_of(b.id.as_str());
    if ra != rb {
        ra < rb
    } else {
        compare_text(a.id.as_str(), b.id.as_str()) == TextOrder::Before
    }
}

/// The flavours in `s` whose id is `k`, in their order in `s`.
pub open spec fn with_id(s: Seq<Flavour>, k: Seq<char>) -> Seq<Flavour> {
    s.filter(|f: Flavour| f.id@ == k)
}

/// Order flavours for the Presets screen: `jack` first, then the rest
/// alphabetically by id; flavours with the same id keep their order.
pub fn order(flavours: Vec<Flavour>) -> (r: Vec<Flavour>)
    ensures
        r@.to_multiset() == flavours@.to_multiset(),
        forall|i: int, j: int| 0 <= i < j < r@.len() ==> !flavour_before(r@[j], r@[i]),
        forall|k: Seq<char>| #[trigger] with_id(r@, k) == with_id(flavours@, k),
{
    broadcast use vstd::seq_lib::group_to_multiset_ensures;

    let mut rest = flavours;
    let mut out: Vec<Flavour> = Vec::new();
    let ghost orig = rest@;
    let ghost mut taken: Seq<Flavour> = Seq::empty();
    while rest.len() > 0
        invariant
            orig == taken + rest@,
            out@.to_multiset() == taken.to_multiset(),
            forall|i: int, j: int| 0 <= i < j < out@.len() ==> !flavour_before(out@[j], out@[i]),
            forall|k: Seq<char>| #[trigger] with_id(out@, k) == with_id(taken, k),
        decreases rest@.len(),
    {
        let ghost r0 = rest@;
        let ghost t0 = taken;
        let x = rest.remove(0);
        proof {
            assert(taken.push(x) + rest@ =~= taken + r0);
            taken = taken.push(x);
            vstd::seq_lib::to_multiset_build(t0, x);
        }
        // first position whose flavour goes strictly after x
        let n = out.len();
        let mut p: usize = 0;
        while p < n && !before(&x, &out[p])
            invariant
                n == out@.len(),
                p <= n,
                forall|j: int| 0 <= j < p ==> !flavour_before(x, #[trigger] out@[j]),
            decreases n - p,
        {
            p = p + 1;
        }
        let ghost o0 = out@;
        proof {
            // everything from p on goes strictly after x
            assert forall|j: int| p <= j < o0.len() implies flavour_before(x, #[trigger] o0[j]) by {
                let y = o0[p as int];
                let z = o0[j];
                assert(flavour_before(x, y));
                if j > p {
                    assert(!flavour_before(z, y));
                }
                lemma_rank_order(
                    flavour_rank(y.id@),
                    y.id@,
                    flavour_rank(z.id@),
                    z.id@,
                    flavour_rank(x.id@),
                    x.id@,
                );
                lemma_rank_order(
                    flavour_rank(x.id@),
                    x.id@,
                    flavour_rank(y.id@),
                    y.id@,
                    flavour_rank(z.id@),
                    z.id@,
                );
            }
            assert forall|i: int, j: int|
                0 <= i < j < o0.len() + 1 implies !flavour_before(
                o0.insert(p as int, x)[j],
                o0.insert(p as int, x)[i],
            ) by {
                o0.insert_ensures(p as int, x);
                if i == p {
                    let z = o0[j - 1];
                    lemma_rank_order(
                        flavour_rank(x.id@),
                        x.id@,
                        flavour_rank(z.id@),
                        z.id@,
                        flavour_rank(x.id@),
                        x.id@,
                    );
                }
            }
            assert forall|k: Seq<char>|
                #[trigger] with_id(o0.insert(p as int, x), k) == with_id(taken, k) by {
                assert forall|j: int| p <= j < o0.len() && x.id@ == k implies !(#[trigger] o0[j].id@
                    == k) by {
                    lemma_rank_order(
                        flavour_rank(x.id@),
                        x.id@,
                        flavour_rank(x.id@),
                        x.id@,
                        flavour_rank(x.id@),
                        x.id@,
                    );
                }
                let pred = |f: Flavour| f.id@ == k;
                lemma_filter_insert(o0, p as int, x, pred);
                lemma_filter_push(t0, x, pred);
                assert(with_id(o0, k) == with_id(t0, k));
                assert(with_id(o0.insert(p as int, x), k) == o0.insert(p as int, x).filter(pred));
                assert(with_id(taken, k) == t0.push(x).filter(pred));
            }
        }
        out.insert(p, x);
        proof {
            vstd::seq_lib::to_multiset_insert(o0, p as int, x);
            assert(out@ == o0.insert(p as int, x));
            assert(out@.to_multiset() == t0.to_multiset().insert(x));
        }
    }
    assert(taken =~= orig);
    out
}

} // verus!
