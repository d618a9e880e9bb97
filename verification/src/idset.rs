//! A set of ids kept in code-point order — the shape a `BTreeSet<String>` has
//! when it is walked, which is the order `newmac.conf` lists selected ids in.
use crate::text::{compare_text, lex_lt, string_views, TextOrder};
use vstd::prelude::*;

verus! {

/// Every element strictly before the next in code-point order (so no two
/// are equal).
pub open spec fn strictly_sorted(s: Seq<Seq<char>>) -> bool {
    forall|i: int, j: int| 0 <= i < j < s.len() ==> lex_lt(s[i], s[j])
}

/// A set of ids, held in ascending order without repeats.
#[derive(Debug, PartialEq, Eq)]
pub struct IdSet {
    items: Vec<String>,
}

impl View for IdSet {
    type V = Seq<Seq<char>>;

    closed spec fn view(&self) -> Seq<Seq<char>> {
        string_views(self.items@)
    }
}

impl IdSet {
    #[verifier::type_invariant]
    closed spec fn inv(self) -> bool {
        strictly_sorted(string_views(self.items@))
    }

    /// The empty set.
    pub fn new() -> (r: Self)
        ensures
            r@ == Seq::<Seq<char>>::empty(),
            strictly_sorted(r@),
    {
        let r = IdSet { items: Vec::new() };
        assert(r@ =~= Seq::<Seq<char>>::empty());
        r
    }

    pub fn len(&self) -> (r: usize)
        ensures
            r == self@.len(),
    {
        self.items.len()
    }

    pub fn is_empty(&self) -> (r: bool)
        ensures
            r == (self@.len() == 0),
    {
        self.items.len() == 0
    }

    /// The ids in ascending order.
    pub fn ids(&self) -> (r: &Vec<String>)
        ensures
            string_views(r@) == self@,
            strictly_sorted(self@),
    {
        proof {
            use_type_invariant(self);
        }
        &self.items
    }

    /// The first position whose id is not before `id`, and whether the id
    /// there is `id` itself.
    fn locate(&self, id: &str) -> (r: (usize, bool))
        ensures
            r.0 <= self@.len(),
            forall|k: int| 0 <= k < r.0 ==> lex_lt(#[trigger] self@[k], id@),
            r.0 < self@.len() ==> !lex_lt(self@[r.0 as int], id@),
            r.1 == (r.0 < self@.len() && self@[r.0 as int] == id@),
    {
        let n = self.items.len();
        let mut i: usize = 0;
        while i < n
            invariant
                n == self@.len(),
                i <= n,
                forall|k: int| 0 <= k < i ==> lex_lt(#[trigger] self@[k], id@),
            decreases n - i,
        {
            let o = compare_text(self.items[i].as_str(), id);
            match o {
                TextOrder::Before => {},
                TextOrder::Same => {
                    return (i, true);
                },
                TextOrder::After => {
                    proof {
                        crate::text::lemma_lex_asymmetric(self@[i as int], id@);
                    }
                    return (i, false);
                },
            }
            i = i + 1;
        }
        (n, false)
    }

    /// Whether `id` is in the set.
    pub fn contains(&self, id: &str) -> (r: bool)
        ensures
            r == self@.contains(id@),
    {
        proof {
            use_type_invariant(self);
        }
        let (i, found) = self.locate(id);
        proof {
            if !found {
                assert forall|k: int| 0 <= k < self@.len() implies self@[k] != id@ by {
                    if k < i {
                        crate::text::lemma_lex_irreflexive(id@);
                    } else {
                        if k > i {
                            assert(lex_lt(self@[i as int], self@[k]));
                            if self@[k] == id@ {
                                crate::text::lemma_lex_total(self@[i as int], id@);
                            }
                        }
                    }
                }
            } else {
                assert(self@[i as int] == id@);
            }
        }
        found
    }

    /// Add `id`; true when it was not there before.
    pub fn insert(&mut self, id: String) -> (r: bool)
        ensures
            r == !old(self)@.contains(id@),
            final(self)@.to_set() == old(self)@.to_set().insert(id@),
            strictly_sorted(old(self)@),
            strictly_sorted(final(self)@),
    {
        proof {
            use_type_invariant(&*self);
        }
        let (i, found) = self.locate(id.as_str());
        let ghost old_v = self@;
        if found {
            assert(old_v.contains(id@));
            assert(old_v.to_set().insert(id@) =~= old_v.to_set());
            return false;
        }
        proof {
            assert forall|k: int| 0 <= k < old_v.len() implies old_v[k] != id@ by {
                if k < i {
                    crate::text::lemma_lex_irreflexive(id@);
                } else if k > i {
                    assert(lex_lt(old_v[i as int], old_v[k]));
                    if old_v[k] == id@ {
                        crate::text::lemma_lex_total(old_v[i as int], id@);
                    }
                }
            }
        }
        let ghost new_v = old_v.insert(i as int, id@);
        proof {
            assert forall|a: int, b: int| 0 <= a < b < new_v.len() implies lex_lt(
                new_v[a],
                new_v[b],
            ) by {
                if b < i {
                    assert(new_v[a] == old_v[a] && new_v[b] == old_v[b]);
                } else if b == i {
                    assert(new_v[a] == old_v[a]);
                } else if a == i {
                    assert(new_v[b] == old_v[b - 1]);
                    if b - 1 > i {
                        assert(lex_lt(old_v[i as int], old_v[b - 1]));
                    }
                    crate::text::lemma_lex_total(id@, old_v[i as int]);
                    if lex_lt(old_v[i as int], old_v[b - 1]) {
                        if lex_lt(id@, old_v[i as int]) {
                            crate::text::lemma_lex_transitive(id@, old_v[i as int], old_v[b - 1]);
                        }
                    }
                } else if a < i {
                    assert(new_v[a] == old_v[a] && new_v[b] == old_v[b - 1]);
                    assert(lex_lt(old_v[a], id@));
                    if b - 1 > a {
                        assert(lex_lt(old_v[a], old_v[b - 1]));
                    }
                } else {
                    assert(new_v[a] == old_v[a - 1] && new_v[b] == old_v[b - 1]);
                }
            }
        }
        let mut items: Vec<String> = Vec::new();
        std::mem::swap(&mut items, &mut self.items);
        items.insert(i, id);
        assert(string_views(items@) =~= new_v);
        self.items = items;
        assert(self@ == new_v);
        assert forall|x: Seq<char>| new_v.contains(x) <==> old_v.contains(x) || x == id@ by {
            if new_v.contains(x) {
                let k = choose|k: int| 0 <= k < new_v.len() && new_v[k] == x;
                if k < i {
                    assert(old_v[k] == x);
                } else if k > i {
                    assert(old_v[k - 1] == x);
                }
            }
            if old_v.contains(x) {
                let k = choose|k: int| 0 <= k < old_v.len() && old_v[k] == x;
                if k < i {
                    assert(new_v[k] == x);
                } else {
                    assert(new_v[k + 1] == x);
                }
            }
            if x == id@ {
                assert(new_v[i as int] == x);
            }
        }
        assert(new_v.to_set() =~= old_v.to_set().insert(id@));
        true
    }

    /// Drop `id`; true when it was there.
    pub fn remove(&mut self, id: &str) -> (r: bool)
        ensures
            r == old(self)@.contains(id@),
            final(self)@.to_set() == old(self)@.to_set().remove(id@),
            strictly_sorted(old(self)@),
            strictly_sorted(final(self)@),
    {
        proof {
            use_type_invariant(&*self);
        }
        let ghost old_v = self@;
        let (i, found) = self.locate(id);
        if !found {
            proof {
                assert forall|k: int| 0 <= k < old_v.len() implies old_v[k] != id@ by {
                    if k < i {
                        crate::text::lemma_lex_irreflexive(id@);
                    } else if k > i {
                        assert(lex_lt(old_v[i as int], old_v[k]));
                        if old_v[k] == id@ {
                            crate::text::lemma_lex_total(old_v[i as int], id@);
                        }
                    }
                }
                assert(!old_v.contains(id@));
                assert(old_v.to_set().remove(id@) =~= old_v.to_set());
            }
            return false;
        }
        let ghost new_v = old_v.remove(i as int);
        proof {
            assert forall|a: int, b: int| 0 <= a < b < new_v.len() implies lex_lt(
                new_v[a],
                new_v[b],
            ) by {
                let a0 = if a < i { a } else { a + 1 };
                let b0 = if b < i { b } else { b + 1 };
                assert(new_v[a] == old_v[a0]);
                assert(new_v[b] == old_v[b0]);
            }
        }
        let mut items: Vec<String> = Vec::new();
        std::mem::swap(&mut items, &mut self.items);
        items.remove(i);
        assert(string_views(items@) =~= new_v);
        self.items = items;
        assert(old_v.contains(id@));
        assert(self@.to_set() =~= old_v.to_set().remove(id@)) by {
            assert forall|x: Seq<char>| self@.contains(x) <==> old_v.contains(x) && x != id@ by {
                if self@.contains(x) {
                    let k = choose|k: int| 0 <= k < self@.len() && self@[k] == x;
                    let k0 = if k < i { k } else { k + 1 };
                    assert(old_v[k0] == x);
                    if x == id@ {
                        if k0 < i {
                            assert(lex_lt(old_v[k0], old_v[i as int]));
                        } else {
                            assert(lex_lt(old_v[i as int], old_v[k0]));
                        }
                        crate::text::lemma_lex_irreflexive(id@);
                    }
                }
                if old_v.contains(x) && x != id@ {
                    let k = choose|k: int| 0 <= k < old_v.len() && old_v[k] == x;
                    assert(k != i);
                    if k < i {
                        assert(self@[k] == x);
                    } else {
                        assert(self@[k - 1] == x);
                    }
                }
            }
        }
        true
    }
}

/// Two ascending repeat-free sequences with the same elements are the same
/// sequence: the order of an [`IdSet`] is determined by its members.
pub proof fn lemma_sorted_unique(a: Seq<Seq<char>>, b: Seq<Seq<char>>)
    requires
        strictly_sorted(a),
        strictly_sorted(b),
        a.to_set() == b.to_set(),
    ensures
        a == b,
    decreases a.len(),
{
    if a.len() == 0 {
        if b.len() > 0 {
            assert(b.to_set().contains(b[0]));
        }
        assert(a =~= b);
    } else if b.len() == 0 {
        assert(a.to_set().contains(a[0]));
    } else {
        // both first elements are the minimum of the common set
        assert(a.to_set().contains(a[0]));
        assert(b.to_set().contains(b[0]));
        let ka = choose|k: int| 0 <= k < b.len() && b[k] == a[0];
        let kb = choose|k: int| 0 <= k < a.len() && a[k] == b[0];
        if ka > 0 {
            assert(lex_lt(b[0], b[ka]));
            if kb > 0 {
                assert(lex_lt(a[0], a[kb]));
                crate::text::lemma_lex_asymmetric(a[0], b[0]);
            } else {
                crate::text::lemma_lex_irreflexive(a[0]);
            }
        }
        assert(a[0] == b[0]);
        let a1 = a.drop_first();
        let b1 = b.drop_first();
        assert forall|x: Seq<char>| a1.to_set().contains(x) <==> b1.to_set().contains(x) by {
            if a1.contains(x) {
                let k = choose|k: int| 0 <= k < a1.len() && a1[k] == x;
                assert(a.contains(x)) by {
                    assert(a[k + 1] == x);
                }
                assert(b.to_set().contains(x));
                let j = choose|j: int| 0 <= j < b.len() && b[j] == x;
                assert(lex_lt(a[0], a[k + 1]));
                if j == 0 {
                    crate::text::lemma_lex_irreflexive(x);
                }
                assert(b1[j - 1] == x);
            }
            if b1.contains(x) {
                let k = choose|k: int| 0 <= k < b1.len() && b1[k] == x;
                assert(b.contains(x)) by {
                    assert(b[k + 1] == x);
                }
                assert(a.to_set().contains(x));
                let j = choose|j: int| 0 <= j < a.len() && a[j] == x;
                assert(lex_lt(b[0], b[k + 1]));
                if j == 0 {
                    crate::text::lemma_lex_irreflexive(x);
                }
                assert(a1[j - 1] == x);
            }
        }
        assert(a1.to_set() =~= b1.to_set());
        lemma_sorted_unique(a1, b1);
        assert(a =~= seq![a[0]] + a1);
        assert(b =~= seq![b[0]] + b1);
    }
}

} // verus!
