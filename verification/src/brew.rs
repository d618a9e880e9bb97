//! Popular Homebrew packages to browse, and custom ones to add.
//!
//! Two sources feed the browse list: a curated snapshot ([`bundled_from`]
//! turns its formula and cask lists into packages) and the live install-count
//! leaderboard ([`ranked_packages`] turns one analytics feed into packages,
//! [`merge_refresh`] joins the formula and cask feeds). Fetching is done by
//! the caller; this module only decides what the list holds.
use crate::text::{same_text, split_char, split_on, string_views};
use vstd::prelude::*;

verus! {

/// Whether a package is a formula (CLI) or a cask (GUI app).
#[derive(Debug, Clone, Copy, PartialEq, Eq, Hash, Structural)]
pub enum BrewKind {
    Formula,
    Cask,
}

pub open spec fn brew_label(k: BrewKind) -> Seq<char> {
    match k {
        BrewKind::Formula => "formula"@,
        BrewKind::Cask => "cask"@,
    }
}

impl BrewKind {
    pub fn label(self) -> (r: &'static str)
        ensures
            r@ == brew_label(self),
    {
        match self {
            BrewKind::Formula => "formula",
            BrewKind::Cask => "cask",
        }
    }
}

/// A browsable Homebrew package.
#[derive(Debug, Clone, PartialEq, Eq)]
pub struct Package {
    pub name: String,
    pub desc: String,
    pub kind: BrewKind,
    /// 90-day install count when known (live refresh only).
    pub installs: Option<u64>,
}

/// The plain content of a package: name, description, kind, install count.
pub open spec fn pkg_view(p: Package) -> (Seq<char>, Seq<char>, BrewKind, Option<u64>) {
    (p.name@, p.desc@, p.kind, p.installs)
}

impl Package {
    /// Composite haystack for fuzzy search: name, a space, description.
    pub fn haystack(&self) -> (r: String)
        ensures
            r@ == self.name@ + " "@ + self.desc@,
    {
        let mut s = String::new();
        s.append(self.name.as_str());
        s.append(" ");
        s.append(self.desc.as_str());
        s
    }
}

/// A package as the snapshot lists it.
#[derive(Debug, Clone, PartialEq, Eq)]
pub struct RawPkg {
    pub name: String,
    pub desc: String,
}

/// One row of an analytics feed: the formula or cask it counts, and the
/// count as text (`"1,234"`).
#[derive(Debug, Clone, PartialEq, Eq)]
pub struct AnalyticsItem {
    pub formula: Option<String>,
    pub cask: Option<String>,
    pub count: String,
}

// ---- keeping the first of each (kind, name) --------------------------------

/// Some package before position `i` has the kind and name of package `i`.
pub open spec fn seen_before(s: Seq<Package>, i: int) -> bool {
    exists|j: int| 0 <= j < i && s[j].kind == s[i].kind && s[j].name@ == s[i].name@
}

/// The packages without repeats of a (kind, name): the first one stays.
pub open spec fn first_of_each(s: Seq<Package>) -> Seq<Package>
    decreases s.len(),
{
    if s.len() == 0 {
        s
    } else {
        let p = first_of_each(s.drop_last());
        if seen_before(s, s.len() - 1) {
            p
        } else {
            p.push(s.last())
        }
    }
}

/// Some package in `s` has this kind and name.
pub open spec fn has_key(s: Seq<Package>, kind: BrewKind, name: Seq<char>) -> bool {
    exists|j: int| 0 <= j < s.len() && s[j].kind == kind && s[j].name@ == name
}

proof fn lemma_first_of_each_keys(t: Seq<Package>, kind: BrewKind, name: Seq<char>)
    ensures
        has_key(first_of_each(t), kind, name) == has_key(t, kind, name),
    decreases t.len(),
{
    if t.len() > 0 {
        let t1 = t.drop_last();
        let x = t.last();
        lemma_first_of_each_keys(t1, kind, name);
        lemma_first_of_each_keys(t1, x.kind, x.name@);
        let p = first_of_each(t1);
        if has_key(t, kind, name) {
            let j = choose|j: int| 0 <= j < t.len() && t[j].kind == kind && t[j].name@ == name;
            if j < t.len() - 1 {
                assert(t1[j] == t[j]);
            }
        }
        if has_key(t1, kind, name) {
            let j = choose|j: int| 0 <= j < t1.len() && t1[j].kind == kind && t1[j].name@ == name;
            assert(t[j] == t1[j]);
        }
        if seen_before(t, t.len() - 1) {
            let j = choose|j: int|
                #![trigger t[j]]
                0 <= j < t.len() - 1 && t[j].kind == x.kind && t[j].name@ == x.name@;
            assert(t1[j] == t[j]);
        } else {
            if has_key(t1, x.kind, x.name@) {
                let j = choose|j: int|
                    0 <= j < t1.len() && t1[j].kind == x.kind && t1[j].name@ == x.name@;
                assert(t[j] == t1[j]);
            }
            if has_key(p.push(x), kind, name) {
                let j = choose|j: int|
                    0 <= j < p.len() + 1 && p.push(x)[j].kind == kind && p.push(x)[j].name@ == name;
                if j < p.len() {
                    assert(p.push(x)[j] == p[j]);
                }
            }
            if has_key(p, kind, name) {
                let j = choose|j: int| 0 <= j < p.len() && p[j].kind == kind && p[j].name@ == name;
                assert(p.push(x)[j] == p[j]);
            }
            if x.kind == kind && x.name@ == name {
                assert(p.push(x)[p.len() as int] == x);
            }
        }
    }
}

fn copy_pkg(p: &Package) -> (r: Package)
    ensures
        r == *p,
{
    Package { name: p.name.clone(), desc: p.desc.clone(), kind: p.kind, installs: p.installs }
}

fn holds_key(out: &Vec<Package>, kind: BrewKind, name: &str) -> (r: bool)
    ensures
        r == has_key(out@, kind, name@),
{
    let n = out.len();
    let mut k: usize = 0;
    while k < n
        invariant
            n == out@.len(),
            k <= n,
            forall|q: int| 0 <= q < k ==> !(out@[q].kind == kind && out@[q].name@ == name@),
        decreases n - k,
    {
        if out[k].kind == kind && same_text(out[k].name.as_str(), name) {
            return true;
        }
        k = k + 1;
    }
    false
}

/// Drop later repeats of a (kind, name) pair, keeping the first of each.
pub fn dedupe(pkgs: &mut Vec<Package>)
    ensures
        final(pkgs)@ == first_of_each(old(pkgs)@),
{
    let ghost s = pkgs@;
    let mut out: Vec<Package> = Vec::new();
    let n = pkgs.len();
    let mut i: usize = 0;
    assert(s.take(0) =~= Seq::<Package>::empty());
    while i < n
        invariant
            s == pkgs@,
            n == s.len(),
            i <= n,
            out@ == first_of_each(s.take(i as int)),
        decreases n - i,
    {
        let ghost t = s.take(i + 1);
        assert(t.drop_last() =~= s.take(i as int));
        assert(t.last() == s[i as int]);
        let seen = holds_key(&out, pkgs[i].kind, pkgs[i].name.as_str());
        proof {
            lemma_first_of_each_keys(s.take(i as int), s[i as int].kind, s[i as int].name@);
            if seen_before(t, i as int) {
                let j = choose|j: int|
                    #![trigger t[j]]
                    0 <= j < i && t[j].kind == t[i as int].kind && t[j].name@ == t[i as int].name@;
                assert(s.take(i as int)[j] == t[j]);
            }
            if has_key(s.take(i as int), s[i as int].kind, s[i as int].name@) {
                let j = choose|j: int|
                    #![trigger s.take(i as int)[j]]
                    0 <= j < i && s.take(i as int)[j].kind == s[i as int].kind && s.take(
                        i as int,
                    )[j].name@ == s[i as int].name@;
                assert(t[j] == s.take(i as int)[j]);
            }
        }
        if !seen {
            out.push(copy_pkg(&pkgs[i]));
        }
        i = i + 1;
    }
    assert(s.take(n as int) =~= s);
    *pkgs = out;
}

// ---- the bundled snapshot --------------------------------------------------

/// Snapshot entries as packages of one kind, with no install count.
pub open spec fn as_packages(raw: Seq<RawPkg>, kind: BrewKind) -> Seq<
    (Seq<char>, Seq<char>, BrewKind, Option<u64>),
> {
    raw.map_values(|p: RawPkg| (p.name@, p.desc@, kind, None::<u64>))
}

fn push_raw(out: &mut Vec<Package>, raw: &Vec<RawPkg>, kind: BrewKind)
    ensures
        final(out)@.map_values(|p: Package| pkg_view(p)) == old(out)@.map_values(
            |p: Package| pkg_view(p),
        ) + as_packages(raw@, kind),
{
    let ghost o0 = out@.map_values(|p: Package| pkg_view(p));
    let n = raw.len();
    let mut i: usize = 0;
    while i < n
        invariant
            n == raw@.len(),
            i <= n,
            out@.map_values(|p: Package| pkg_view(p)) == o0 + as_packages(
                raw@.take(i as int),
                kind,
            ),
        decreases n - i,
    {
        let p = Package {
            name: raw[i].name.clone(),
            desc: raw[i].desc.clone(),
            kind,
            installs: None,
        };
        let ghost before = out@;
        out.push(p);
        assert(raw@.take(i + 1) =~= raw@.take(i as int).push(raw@[i as int]));
        assert(out@.map_values(|p: Package| pkg_view(p)) =~= o0 + as_packages(
            raw@.take(i + 1),
            kind,
        )) by {
            assert(out@ =~= before.push(p));
            assert(as_packages(raw@.take(i + 1), kind) =~= as_packages(
                raw@.take(i as int),
                kind,
            ).push(pkg_view(p)));
            assert(before.push(p).map_values(|p: Package| pkg_view(p)) =~= before.map_values(
                |p: Package| pkg_view(p),
            ).push(pkg_view(p)));
            assert((o0 + as_packages(raw@.take(i as int), kind)).push(pkg_view(p)) =~= o0
                + as_packages(raw@.take(i as int), kind).push(pkg_view(p)));
        }
        i = i + 1;
    }
    assert(raw@.take(n as int) =~= raw@);
}

/// The bundled snapshot as packages: formulae then casks, in curated order,
/// the first of each repeated (kind, name) kept.
pub fn bundled_from(formula: &Vec<RawPkg>, cask: &Vec<RawPkg>) -> (r: Vec<Package>)
    ensures
        exists|all: Seq<Package>|
            all.map_values(|p: Package| pkg_view(p)) == as_packages(formula@, BrewKind::Formula)
                + as_packages(cask@, BrewKind::Cask) && r@ == first_of_each(all),
{
    let mut out: Vec<Package> = Vec::new();
    push_raw(&mut out, formula, BrewKind::Formula);
    push_raw(&mut out, cask, BrewKind::Cask);
    let ghost all = out@;
    assert(Seq::<Package>::empty().map_values(|p: Package| pkg_view(p)) =~= Seq::empty());
    assert(all.map_values(|p: Package| pkg_view(p)) =~= as_packages(formula@, BrewKind::Formula)
        + as_packages(cask@, BrewKind::Cask));
    dedupe(&mut out);
    out
}

// ---- install counts --------------------------------------------------------

pub open spec fn is_digit(c: char) -> bool {
    '0' <= c && c <= '9'
}

/// The number decimal digits `s` spell.
pub open spec fn dec_nat(s: Seq<char>) -> nat
    decreases s.len(),
{
    if s.len() == 0 {
        0
    } else {
        dec_nat(s.drop_last()) * 10 + (s.last() as nat - '0' as nat) as nat
    }
}

/// An install count as the feed writes it (`"1,234"`): its digits read as a
/// number; none when there are no digits or the number does not fit 64 bits.
pub open spec fn count_of(s: Seq<char>) -> Option<u64> {
    let ds = s.filter(|c: char| is_digit(c));
    if ds.len() > 0 && dec_nat(ds) <= u64::MAX {
        Some(dec_nat(ds) as u64)
    } else {
        None
    }
}

proof fn lemma_dec_mono(s: Seq<char>, i: int)
    requires
        0 <= i <= s.len(),
        forall|k: int| 0 <= k < s.len() ==> is_digit(#[trigger] s[k]),
    ensures
        dec_nat(s) >= dec_nat(s.take(i)),
    decreases s.len() - i,
{
    if i < s.len() {
        lemma_dec_mono(s, i + 1);
        assert(s.take(i + 1).drop_last() =~= s.take(i));
        assert(s.take(i + 1).last() == s[i]);
    } else {
        assert(s.take(i) =~= s);
    }
}

/// Read an install count (`"1,234"` → 1234).
pub fn parse_count(s: &str) -> (r: Option<u64>)
    ensures
        r == count_of(s@),
{
    let ghost pred = |c: char| is_digit(c);
    let n = s.unicode_len();
    let mut v: u128 = 0;
    let mut any = false;
    let mut over = false;
    let mut i: usize = 0;
    let ghost mut ds: Seq<char> = Seq::empty();
    while i < n
        invariant
            n == s@.len(),
            i <= n,
            pred == (|c: char| is_digit(c)),
            ds == s@.take(i as int).filter(pred),
            forall|k: int| 0 <= k < ds.len() ==> is_digit(#[trigger] ds[k]),
            any == (ds.len() > 0),
            !over ==> v == dec_nat(ds) && v <= u64::MAX,
            over ==> dec_nat(ds) > u64::MAX,
        decreases n - i,
    {
        let c = s.get_char(i);
        proof {
            assert(s@.take(i + 1) =~= s@.take(i as int).push(c));
            s@.take(i as int).lemma_filter_push(c, pred);
        }
        if '0' <= c && c <= '9' {
            let ghost d0 = ds;
            proof {
                ds = ds.push(c);
                assert(ds.drop_last() =~= d0);
                assert forall|k: int| 0 <= k < ds.len() implies is_digit(#[trigger] ds[k]) by {
                    if k < d0.len() {
                        assert(ds[k] == d0[k]);
                    }
                }
            }
            any = true;
            if !over {
                let w = v * 10 + (c as u32 - '0' as u32) as u128;
                if w > 0xffff_ffff_ffff_ffff {
                    over = true;
                } else {
                    v = w;
                }
            } else {
                proof {
                    lemma_dec_mono(ds, d0.len() as int);
                    assert(ds.take(d0.len() as int) =~= d0);
                }
            }
        }
        i = i + 1;
    }
    assert(s@.take(n as int) =~= s@);
    if any && !over {
        Some(v as u64)
    } else {
        None
    }
}

// ---- the live leaderboard --------------------------------------------------

/// The package name an analytics row counts for this kind, if any.
pub open spec fn row_name(it: AnalyticsItem, kind: BrewKind) -> Option<Seq<char>> {
    match kind {
        BrewKind::Formula => match it.formula {
            Some(n) => Some(n@),
            None => None,
        },
        BrewKind::Cask => match it.cask {
            Some(n) => Some(n@),
            None => None,
        },
    }
}

/// The description of the last known package of that kind and name, or
/// empty — what a lookup keyed by `"<kind>:<name>"` gives.
pub open spec fn desc_for(known: Seq<Package>, kind: BrewKind, name: Seq<char>) -> Seq<char>
    decreases known.len(),
{
    if known.len() == 0 {
        Seq::empty()
    } else if known.last().kind == kind && known.last().name@ == name {
        known.last().desc@
    } else {
        desc_for(known.drop_last(), kind, name)
    }
}

/// The package an analytics row stands for: the leading token of its name
/// (`openssl@3 foo` → `openssl@3`), with the known description and its count.
pub open spec fn row_package(it: AnalyticsItem, kind: BrewKind, known: Seq<Package>) -> Option<
    (Seq<char>, Seq<char>, BrewKind, Option<u64>),
> {
    match row_name(it, kind) {
        None => None,
        Some(full) => {
            let name = split_char(full, ' ')[0];
            Some((name, desc_for(known, kind, name), kind, count_of(it.count@)))
        },
    }
}

/// The packages of all rows that name one, in feed order.
pub open spec fn rows_packages(items: Seq<AnalyticsItem>, kind: BrewKind, known: Seq<Package>) -> Seq<
    (Seq<char>, Seq<char>, BrewKind, Option<u64>),
>
    decreases items.len(),
{
    if items.len() == 0 {
        Seq::empty()
    } else {
        let p = rows_packages(items.drop_last(), kind, known);
        match row_package(items.last(), kind, known) {
            Some(x) => p.push(x),
            None => p,
        }
    }
}

fn lookup_desc(known: &Vec<Package>, kind: BrewKind, name: &str) -> (r: String)
    ensures
        r@ == desc_for(known@, kind, name@),
{
    let mut i: usize = known.len();
    assert(known@.take(i as int) =~= known@);
    while i > 0
        invariant
            i <= known@.len(),
            desc_for(known@, kind, name@) == desc_for(known@.take(i as int), kind, name@),
        decreases i,
    {
        let ghost t = known@.take(i as int);
        assert(t.drop_last() =~= known@.take(i - 1));
        assert(t.last() == known@[i - 1]);
        if known[i - 1].kind == kind && same_text(known[i - 1].name.as_str(), name) {
            return known[i - 1].desc.clone();
        }
        i = i - 1;
    }
    String::new()
}

/// The top `limit` packages of one analytics feed, in feed order: rows with
/// no name of this kind are skipped, the name cut at its first space, the
/// description looked up among `known`, the count read from its text.
pub fn ranked_packages(
    items: &Vec<AnalyticsItem>,
    kind: BrewKind,
    limit: usize,
    known: &Vec<Package>,
) -> (r: Vec<Package>)
    ensures
        r@.map_values(|p: Package| pkg_view(p)) == rows_packages(items@, kind, known@).take(
            if limit < rows_packages(items@, kind, known@).len() {
                limit as int
            } else {
                rows_packages(items@, kind, known@).len() as int
            },
        ),
{
    let ghost all = rows_packages(items@, kind, known@);
    let mut out: Vec<Package> = Vec::new();
    let n = items.len();
    let mut i: usize = 0;
    while i < n && out.len() < limit
        invariant
            n == items@.len(),
            i <= n,
            out@.map_values(|p: Package| pkg_view(p)) == rows_packages(
                items@.take(i as int),
                kind,
                known@,
            ),
            out@.len() <= limit,
        decreases n - i,
    {
        let ghost t = items@.take(i + 1);
        assert(t.drop_last() =~= items@.take(i as int));
        assert(t.last() == items@[i as int]);
        let full = match kind {
            BrewKind::Formula => &items[i].formula,
            BrewKind::Cask => &items[i].cask,
        };
        match full {
            Some(full) => {
                let pieces = split_on(full.as_str(), ' ');
                proof {
                    crate::text::lemma_split_char_nonempty(full@, ' ');
                }
                let name = pieces[0].to_owned();
                let desc = lookup_desc(known, kind, name.as_str());
                let installs = parse_count(items[i].count.as_str());
                let p = Package { name, desc, kind, installs };
                let ghost before = out@;
                out.push(p);
                assert(out@.map_values(|p: Package| pkg_view(p)) =~= before.map_values(
                    |p: Package| pkg_view(p),
                ).push(pkg_view(p)));
            },
            None => {},
        }
        i = i + 1;
    }
    proof {
        lemma_rows_prefix(items@, kind, known@, i as int);
        if out@.len() < limit {
            assert(i == n);
            assert(items@.take(n as int) =~= items@);
        }
        assert(out@.map_values(|p: Package| pkg_view(p)).len() == out@.len());
        assert(all.take(out@.len() as int) =~= out@.map_values(|p: Package| pkg_view(p)));
    }
    out
}

/// The packages of a prefix of the rows are a prefix of all their packages.
proof fn lemma_rows_prefix(items: Seq<AnalyticsItem>, kind: BrewKind, known: Seq<Package>, i: int)
    requires
        0 <= i <= items.len(),
    ensures
        rows_packages(items, kind, known).len() >= rows_packages(items.take(i), kind, known).len(),
        rows_packages(items, kind, known).take(
            rows_packages(items.take(i), kind, known).len() as int,
        ) == rows_packages(items.take(i), kind, known),
    decreases items.len() - i,
{
    if i == items.len() {
        assert(items.take(i) =~= items);
        let r = rows_packages(items, kind, known);
        assert(r.take(r.len() as int) =~= r);
    } else {
        lemma_rows_prefix(items, kind, known, i + 1);
        let t = items.take(i + 1);
        assert(t.drop_last() =~= items.take(i));
        let a = rows_packages(items.take(i), kind, known);
        let b = rows_packages(t, kind, known);
        let all = rows_packages(items, kind, known);
        assert(b.take(a.len() as int) =~= a);
        assert(all.take(a.len() as int) =~= all.take(b.len() as int).take(a.len() as int));
    }
}

/// Join the formula and cask leaderboards: formulae then casks, the first of
/// each repeated (kind, name) kept.
pub fn merge_refresh(formulae: Vec<Package>, casks: Vec<Package>) -> (r: Vec<Package>)
    ensures
        r@ == first_of_each(formulae@ + casks@),
{
    let mut out = formulae;
    let mut rest = casks;
    let ghost a = out@;
    let ghost b = rest@;
    out.append(&mut rest);
    assert(out@ == a + b);
    dedupe(&mut out);
    out
}


/// The first `limit` of a feed's packages (all of them when fewer).
pub open spec fn top(
    s: Seq<(Seq<char>, Seq<char>, BrewKind, Option<u64>)>,
    limit: usize,
) -> Seq<(Seq<char>, Seq<char>, BrewKind, Option<u64>)> {
    if limit < s.len() {
        s.take(limit as int)
    } else {
        s
    }
}

/// The live list from the two analytics feeds: the top `limit` formulae then
/// the top `limit` casks, descriptions looked up among `known` (the bundled
/// snapshot), the first of each repeated (kind, name) kept.
pub fn refresh(
    formula_rows: &Vec<AnalyticsItem>,
    cask_rows: &Vec<AnalyticsItem>,
    limit: usize,
    known: &Vec<Package>,
) -> (r: Vec<Package>)
    ensures
        exists|all: Seq<Package>|
            all.map_values(|p: Package| pkg_view(p)) == top(
                rows_packages(formula_rows@, BrewKind::Formula, known@),
                limit,
            ) + top(rows_packages(cask_rows@, BrewKind::Cask, known@), limit) && r@
                == first_of_each(all),
{
    let formulae = ranked_packages(formula_rows, BrewKind::Formula, limit, known);
    let casks = ranked_packages(cask_rows, BrewKind::Cask, limit, known);
    let ghost all = formulae@ + casks@;
    assert(all.map_values(|p: Package| pkg_view(p)) =~= formulae@.map_values(
        |p: Package| pkg_view(p),
    ) + casks@.map_values(|p: Package| pkg_view(p)));
    merge_refresh(formulae, casks)
}
} // verus!
