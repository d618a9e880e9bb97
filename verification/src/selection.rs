//! The user's picks, read from and written to `newmac.conf`.
//!
//! The file is plain shell `KEY=value` sourced by every bash script, so its
//! shape is reproduced exactly: the conf `install.sh` already reads, plus
//! `NEWMAC_EXTRA_BREW` / `NEWMAC_EXTRA_CASK` for hand-added Homebrew packages
//! and `NEWMAC_GLASS` for the translucent-terminal look.
use crate::catalog::{Catalog, Item};
use crate::flavour::{in_catalog, Flavour};
use crate::idset::{strictly_sorted, IdSet};
use crate::text::{
    find_char, is_space, is_word, is_ws, join, join_strings, joined_lines, same_text, split_char, split_on, split_words,
    string_views, trim, trim_str, words,
};
use vstd::prelude::*;

verus! {

/// The five opt-in behaviours, mirroring `NEWMAC_TOGGLE_*`.
#[derive(Debug, Clone, Copy, PartialEq, Eq, Structural)]
pub struct Toggles {
    /// Apply the tiling-desktop configs.
    pub ricing: bool,
    /// Apply opinionated macOS UX defaults.
    pub macos_defaults: bool,
    /// Apply battery/power tuning via pmset.
    pub power: bool,
    /// Schedule weekly auto-updates.
    pub schedule: bool,
    /// Arrange the Dock to match the selection.
    pub dock: bool,
}

/// The bash defaults: everything on but the weekly schedule.
pub open spec fn default_toggles() -> Toggles {
    Toggles { ricing: true, macos_defaults: true, power: true, schedule: false, dock: true }
}

impl Default for Toggles {
    fn default() -> (r: Self)
        ensures
            r == default_toggles(),
    {
        Toggles { ricing: true, macos_defaults: true, power: true, schedule: false, dock: true }
    }
}

/// A custom Homebrew package the user added by hand or from the browse list.
#[derive(Debug, Clone, PartialEq, Eq)]
pub struct Custom {
    pub name: String,
    pub cask: bool,
}

/// Everything the picker collects, ready to serialise to `newmac.conf`.
#[derive(Debug, PartialEq, Eq)]
pub struct Selection {
    pub selected: IdSet,
    pub theme: String,
    pub glass: bool,
    pub toggles: Toggles,
    pub extra_brew: Vec<String>,
    pub extra_cask: Vec<String>,
}

/// The mathematical content of a [`Selection`].
#[verifier::ext_equal]
pub struct SelectionView {
    pub selected: Set<Seq<char>>,
    pub theme: Seq<char>,
    pub glass: bool,
    pub toggles: Toggles,
    pub extra_brew: Seq<Seq<char>>,
    pub extra_cask: Seq<Seq<char>>,
}

impl View for Selection {
    type V = SelectionView;

    open spec fn view(&self) -> SelectionView {
        SelectionView {
            selected: self.selected@.to_set(),
            theme: self.theme@,
            glass: self.glass,
            toggles: self.toggles,
            extra_brew: string_views(self.extra_brew@),
            extra_cask: string_views(self.extra_cask@),
        }
    }
}

/// The selection a fresh picker starts from.
pub open spec fn default_view() -> SelectionView {
    SelectionView {
        selected: Set::empty(),
        theme: "tokyonight"@,
        glass: false,
        toggles: default_toggles(),
        extra_brew: Seq::empty(),
        extra_cask: Seq::empty(),
    }
}

/// The custom list a package of this kind goes to.
pub open spec fn custom_list(m: SelectionView, cask: bool) -> Seq<Seq<char>> {
    if cask {
        m.extra_cask
    } else {
        m.extra_brew
    }
}

/// `m` with its custom list of this kind replaced by `list`.
pub open spec fn with_custom_list(m: SelectionView, cask: bool, list: Seq<Seq<char>>) -> SelectionView {
    if cask {
        SelectionView { extra_cask: list, ..m }
    } else {
        SelectionView { extra_brew: list, ..m }
    }
}

// ---- reading newmac.conf ---------------------------------------------------

/// Index of the first `c` in `s`.
pub open spec fn index_of(s: Seq<char>, c: char) -> Option<int>
    decreases s.len(),
{
    if s.len() == 0 {
        None
    } else if s[0] == c {
        Some(0)
    } else {
        match index_of(s.drop_first(), c) {
            Some(i) => Some(i + 1),
            None => None,
        }
    }
}

pub proof fn lemma_index_of(s: Seq<char>, c: char, r: Option<int>)
    requires
        match r {
            Some(i) => 0 <= i < s.len() && s[i] == c && forall|k: int| 0 <= k < i ==> s[k] != c,
            None => forall|k: int| 0 <= k < s.len() ==> s[k] != c,
        },
    ensures
        index_of(s, c) == r,
    decreases s.len(),
{
    if s.len() > 0 && s[0] != c {
        let t = s.drop_first();
        let r2 = match r {
            Some(i) => Some(i - 1),
            None => None,
        };
        match r {
            Some(i) => {
                assert forall|k: int| 0 <= k < i - 1 implies t[k] != c by {
                    assert(t[k] == s[k + 1]);
                }
                assert(t[i - 1] == s[i]);
            },
            None => {
                assert forall|k: int| 0 <= k < t.len() implies t[k] != c by {
                    assert(t[k] == s[k + 1]);
                }
            },
        }
        lemma_index_of(t, c, r2);
    }
}

/// A value with surrounding white space trimmed and one pair of matching
/// `"…"` or `'…'` quotes removed.
pub open spec fn unquoted(v: Seq<char>) -> Seq<char> {
    let t = trim(v);
    if t.len() >= 2 && ((t[0] == '"' && t.last() == '"') || (t[0] == '\'' && t.last() == '\'')) {
        t.subrange(1, t.len() - 1)
    } else {
        t
    }
}

/// The values the conf treats as "on".
pub open spec fn truthy(v: Seq<char>) -> bool {
    let t = trim(v);
    t == "1"@ || t == "true"@ || t == "yes"@ || t == "on"@
}

/// The effect of one `KEY=value` setting; unknown keys change nothing.
pub open spec fn apply_setting(m: SelectionView, key: Seq<char>, val: Seq<char>) -> SelectionView {
    if key == "NEWMAC_SELECTED"@ {
        SelectionView { selected: words(val).to_set(), ..m }
    } else if key == "NEWMAC_THEME"@ {
        SelectionView { theme: val, ..m }
    } else if key == "NEWMAC_GLASS"@ {
        SelectionView { glass: truthy(val), ..m }
    } else if key == "NEWMAC_TOGGLE_RICING"@ {
        SelectionView { toggles: Toggles { ricing: truthy(val), ..m.toggles }, ..m }
    } else if key == "NEWMAC_TOGGLE_MACOS_DEFAULTS"@ {
        SelectionView { toggles: Toggles { macos_defaults: truthy(val), ..m.toggles }, ..m }
    } else if key == "NEWMAC_TOGGLE_POWER"@ {
        SelectionView { toggles: Toggles { power: truthy(val), ..m.toggles }, ..m }
    } else if key == "NEWMAC_TOGGLE_SCHEDULE"@ {
        SelectionView { toggles: Toggles { schedule: truthy(val), ..m.toggles }, ..m }
    } else if key == "NEWMAC_TOGGLE_DOCK"@ {
        SelectionView { toggles: Toggles { dock: truthy(val), ..m.toggles }, ..m }
    } else if key == "NEWMAC_EXTRA_BREW"@ {
        SelectionView { extra_brew: words(val), ..m }
    } else if key == "NEWMAC_EXTRA_CASK"@ {
        SelectionView { extra_cask: words(val), ..m }
    } else {
        m
    }
}

/// The effect of one line: blank lines, `#` comments and lines without `=`
/// change nothing; otherwise the key is the trimmed text before the first
/// `=` and the value the unquoted text after it.
pub open spec fn apply_line(m: SelectionView, raw: Seq<char>) -> SelectionView {
    let line = trim(raw);
    if line.len() == 0 || line[0] == '#' {
        m
    } else {
        match index_of(line, '=') {
            None => m,
            Some(i) => apply_setting(m, trim(line.take(i)), unquoted(line.skip(i + 1))),
        }
    }
}

/// The lines applied in order.
pub open spec fn apply_lines(m: SelectionView, lines: Seq<Seq<char>>) -> SelectionView
    decreases lines.len(),
{
    if lines.len() == 0 {
        m
    } else {
        apply_line(apply_lines(m, lines.drop_last()), lines.last())
    }
}

/// What `newmac.conf` text `text` reads as.
pub open spec fn parsed_conf(text: Seq<char>) -> SelectionView {
    apply_lines(default_view(), split_char(text, '\n'))
}

// ---- writing newmac.conf ---------------------------------------------------

/// `1` or `0`.
pub open spec fn bit(b: bool) -> Seq<char> {
    if b {
        "1"@
    } else {
        "0"@
    }
}

/// The lines of `newmac.conf` for a selection whose ids are `ids` (in the
/// order written), without their line ends.
pub open spec fn conf_lines(
    ids: Seq<Seq<char>>,
    theme: Seq<char>,
    glass: bool,
    t: Toggles,
    brew: Seq<Seq<char>>,
    cask: Seq<Seq<char>>,
    note: Seq<char>,
) -> Seq<Seq<char>> {
    seq![
        "# newmac.conf — generated by "@ + note,
        "# Edit by hand or re-run: newmac configure"@,
        "NEWMAC_SELECTED=\" "@ + join(ids, " "@) + " \""@,
        "NEWMAC_THEME="@ + theme,
    ] + (if glass {
        seq!["NEWMAC_GLASS="@ + bit(true)]
    } else {
        Seq::empty()
    }) + seq![
        "NEWMAC_TOGGLE_RICING="@ + bit(t.ricing),
        "NEWMAC_TOGGLE_MACOS_DEFAULTS="@ + bit(t.macos_defaults),
        "NEWMAC_TOGGLE_POWER="@ + bit(t.power),
        "NEWMAC_TOGGLE_SCHEDULE="@ + bit(t.schedule),
        "NEWMAC_TOGGLE_DOCK="@ + bit(t.dock),
    ] + (if brew.len() > 0 {
        seq!["NEWMAC_EXTRA_BREW=\""@ + join(brew, " "@) + "\""@]
    } else {
        Seq::empty()
    }) + (if cask.len() > 0 {
        seq!["NEWMAC_EXTRA_CASK=\""@ + join(cask, " "@) + "\""@]
    } else {
        Seq::empty()
    })
}

/// Append `line` and a line end.
fn push_line(out: &mut String, line: &str)
    ensures
        final(out)@ == old(out)@ + line@ + seq!['\n'],
{
    out.append(line);
    out.append("\n");
    proof {
        reveal_strlit("\n");
    }
}

fn bit_str(b: bool) -> (r: &'static str)
    ensures
        r@ == bit(b),
{
    if b {
        "1"
    } else {
        "0"
    }
}

/// Whether `v` is on: `1`, `true`, `yes` or `on`, around white space.
pub fn as_bool(v: &str) -> (r: bool)
    ensures
        r == truthy(v@),
{
    let t = trim_str(v);
    same_text(t, "1") || same_text(t, "true") || same_text(t, "yes") || same_text(t, "on")
}

/// Trim, then drop one pair of matching surrounding quotes.
pub fn unquote(v: &str) -> (r: String)
    ensures
        r@ == unquoted(v@),
{
    let t = trim_str(v);
    let n = t.unicode_len();
    if n >= 2 {
        let a = t.get_char(0);
        let b = t.get_char(n - 1);
        if (a == '"' && b == '"') || (a == '\'' && b == '\'') {
            return t.substring_char(1, n - 1).to_owned();
        }
    }
    t.to_owned()
}

/// Whether `list` holds `name`.
pub(crate) fn list_contains(list: &Vec<String>, name: &str) -> (r: bool)
    ensures
        r == string_views(list@).contains(name@),
{
    let n = list.len();
    let mut i: usize = 0;
    while i < n
        invariant
            n == list@.len(),
            i <= n,
            forall|k: int| 0 <= k < i ==> list@[k]@ != name@,
        decreases n - i,
    {
        if same_text(list[i].as_str(), name) {
            assert(string_views(list@)[i as int] == name@);
            return true;
        }
        i = i + 1;
    }
    assert(!string_views(list@).contains(name@)) by {
        if string_views(list@).contains(name@) {
            let k = choose|k: int|
                0 <= k < string_views(list@).len() && string_views(list@)[k] == name@;
            assert(string_views(list@)[k] == list@[k]@);
        }
    }
    false
}

/// `list` without the entries equal to `name`, order kept.
fn without(list: &Vec<String>, name: &str) -> (r: Vec<String>)
    ensures
        string_views(r@) == string_views(list@).filter(|n: Seq<char>| n != name@),
{
    let ghost pred = |n: Seq<char>| n != name@;
    let ghost l = string_views(list@);
    let mut kept: Vec<String> = Vec::new();
    let n = list.len();
    let mut i: usize = 0;
    while i < n
        invariant
            n == list@.len(),
            l == string_views(list@),
            i <= n,
            pred == (|n: Seq<char>| n != name@),
            string_views(kept@) == l.take(i as int).filter(pred),
        decreases n - i,
    {
        proof {
            assert(l.take(i + 1) =~= l.take(i as int).push(l[i as int]));
            l.take(i as int).lemma_filter_push(l[i as int], pred);
        }
        let ghost k0 = kept@;
        if !same_text(list[i].as_str(), name) {
            kept.push(list[i].clone());
            assert(string_views(kept@) =~= string_views(k0).push(list@[i as int]@));
        }
        i = i + 1;
    }
    assert(l.take(n as int) =~= l);
    kept
}

/// The selection a flavour seeds: its ids that the catalog knows, its theme,
/// glass flag and toggles, and no custom packages.
pub open spec fn flavour_view(catalog: Catalog, flavour: Flavour) -> SelectionView {
    SelectionView {
        selected: string_views(flavour.ids@).filter(|id: Seq<char>| in_catalog(catalog, id)).to_set(),
        theme: flavour.theme@,
        glass: flavour.glass,
        toggles: Toggles {
            ricing: flavour.ricing,
            macos_defaults: flavour.macos_defaults,
            power: flavour.power,
            schedule: flavour.schedule,
            dock: flavour.dock,
        },
        ..default_view()
    }
}

/// The selection the catalog's on/off defaults seed.
pub open spec fn defaults_view(catalog: Catalog) -> SelectionView {
    SelectionView {
        selected: catalog.items@.filter(|i: Item| i.default).map_values(|i: Item| i.id@).to_set(),
        ..default_view()
    }
}

/// `m` with `id` flipped between selected and not.
pub open spec fn toggled(m: SelectionView, id: Seq<char>) -> SelectionView {
    if m.selected.contains(id) {
        SelectionView { selected: m.selected.remove(id), ..m }
    } else {
        SelectionView { selected: m.selected.insert(id), ..m }
    }
}

/// Toggling an id twice leaves the selection as it was.
pub proof fn lemma_toggle_twice(m: SelectionView, id: Seq<char>)
    ensures
        toggled(toggled(m, id), id) == m,
{
    if m.selected.contains(id) {
        assert(m.selected.remove(id).insert(id) =~= m.selected);
    } else {
        assert(m.selected.insert(id).remove(id) =~= m.selected);
    }
    assert(toggled(toggled(m, id), id) =~= m);
}

/// The selection after `add_custom` of `name` to the list of kind `cask`.
pub open spec fn with_custom(m: SelectionView, name: Seq<char>, cask: bool) -> SelectionView {
    if custom_list(m, cask).contains(name) {
        m
    } else {
        with_custom_list(m, cask, custom_list(m, cask).push(name))
    }
}

/// Adding a custom package is idempotent: a second add of the same name
/// changes nothing, and the name is then on its list.
pub proof fn lemma_add_custom_idempotent(m: SelectionView, name: Seq<char>, cask: bool)
    ensures
        custom_list(with_custom(m, name, cask), cask).contains(name),
        with_custom(with_custom(m, name, cask), name, cask) == with_custom(m, name, cask),
{
    if !custom_list(m, cask).contains(name) {
        let l = custom_list(m, cask).push(name);
        assert(l[l.len() - 1] == name);
        assert(custom_list(with_custom(m, name, cask), cask) == l);
    }
}

/// The text of `newmac.conf` for `s`: its lines, one per `\n`.
pub open spec fn conf_text(s: Selection, note: Seq<char>) -> Seq<char> {
    joined_lines(
        conf_lines(
            s.selected@,
            s.theme@,
            s.glass,
            s.toggles,
            string_views(s.extra_brew@),
            string_views(s.extra_cask@),
            note,
        ),
        '\n',
    )
}

impl Default for Selection {
    fn default() -> (r: Self)
        ensures
            r@ == default_view(),
            strictly_sorted(r.selected@),
    {
        let r = Selection {
            selected: IdSet::new(),
            theme: "tokyonight".to_owned(),
            glass: false,
            toggles: Toggles::default(),
            extra_brew: Vec::new(),
            extra_cask: Vec::new(),
        };
        assert(r@ =~= default_view());
        r
    }
}

impl Selection {
    pub fn is_selected(&self, id: &str) -> (r: bool)
        ensures
            r == self@.selected.contains(id@),
    {
        self.selected.contains(id)
    }

    /// Flip whether `id` is selected.
    pub fn toggle(&mut self, id: &str)
        ensures
            final(self)@ == toggled(old(self)@, id@),
            strictly_sorted(final(self).selected@),
    {
        if !self.selected.remove(id) {
            self.selected.insert(id.to_owned());
        }
        assert(final(self)@ =~= toggled(old(self)@, id@));
    }

    /// Select (`on`) or deselect `id`.
    pub fn set(&mut self, id: &str, on: bool)
        ensures
            final(self)@ == (if on {
                SelectionView { selected: old(self)@.selected.insert(id@), ..old(self)@ }
            } else {
                SelectionView { selected: old(self)@.selected.remove(id@), ..old(self)@ }
            }),
            strictly_sorted(final(self).selected@),
    {
        if on {
            self.selected.insert(id.to_owned());
        } else {
            self.selected.remove(id);
        }
        assert(final(self)@ =~= (if on {
            SelectionView { selected: old(self)@.selected.insert(id@), ..old(self)@ }
        } else {
            SelectionView { selected: old(self)@.selected.remove(id@), ..old(self)@ }
        }));
    }

    /// Add a custom package to the list of its kind, unless that list already
    /// holds the name. Returns false if it was already there.
    pub fn add_custom(&mut self, c: &Custom) -> (r: bool)
        ensures
            r == !custom_list(old(self)@, c.cask).contains(c.name@),
            final(self)@ == with_custom(old(self)@, c.name@, c.cask),
            final(self)@ == (if r {
                with_custom_list(old(self)@, c.cask, custom_list(old(self)@, c.cask).push(c.name@))
            } else {
                old(self)@
            }),
            final(self).selected@ == old(self).selected@,
    {
        let ghost m = self@;
        let found = if c.cask {
            list_contains(&self.extra_cask, c.name.as_str())
        } else {
            list_contains(&self.extra_brew, c.name.as_str())
        };
        if found {
            return false;
        }
        if c.cask {
            self.extra_cask.push(c.name.clone());
        } else {
            self.extra_brew.push(c.name.clone());
        }
        assert(final(self)@ =~= with_custom_list(
            m,
            c.cask,
            custom_list(m, c.cask).push(c.name@),
        ));
        true
    }

    /// Drop every entry `name` from the custom list of that kind.
    pub fn remove_custom(&mut self, name: &str, cask: bool)
        ensures
            final(self)@ == with_custom_list(
                old(self)@,
                cask,
                custom_list(old(self)@, cask).filter(|n: Seq<char>| n != name@),
            ),
            final(self).selected@ == old(self).selected@,
    {
        let ghost m = self@;
        if cask {
            self.extra_cask = without(&self.extra_cask, name);
        } else {
            self.extra_brew = without(&self.extra_brew, name);
        }
        assert(final(self)@ =~= with_custom_list(
            m,
            cask,
            custom_list(m, cask).filter(|n: Seq<char>| n != name@),
        ));
    }

    /// Seed a selection from a flavour: its ids that the catalog knows, its
    /// theme, glass flag and toggles, and no custom packages.
    pub fn from_flavour(catalog: &Catalog, flavour: &Flavour) -> (r: Self)
        ensures
            r@ == flavour_view(*catalog, *flavour),
            strictly_sorted(r.selected@),
    {
        let ghost pred = |id: Seq<char>| in_catalog(*catalog, id);
        let ghost v = string_views(flavour.ids@);
        let mut s = Self::default();
        let n = flavour.ids.len();
        let mut k: usize = 0;
        while k < n
            invariant
                n == flavour.ids@.len(),
                v == string_views(flavour.ids@),
                k <= n,
                pred == (|id: Seq<char>| in_catalog(*catalog, id)),
                s@ == (SelectionView { selected: v.take(k as int).filter(pred).to_set(), ..default_view() }),
                strictly_sorted(s.selected@),
            decreases n - k,
        {
            proof {
                assert(v.take(k + 1) =~= v.take(k as int).push(v[k as int]));
                v.take(k as int).lemma_filter_push(v[k as int], pred);
                v.take(k as int).filter(pred).lemma_push_to_set_commute(v[k as int]);
            }
            match catalog.get(flavour.ids[k].as_str()) {
                Some(_) => {
                    s.selected.insert(flavour.ids[k].clone());
                },
                None => {},
            }
            assert(s@ =~= (SelectionView { selected: v.take(k + 1).filter(pred).to_set(), ..default_view() }));
            k = k + 1;
        }
        assert(v.take(n as int) =~= v);
        s.theme = flavour.theme.clone();
        s.glass = flavour.glass;
        s.toggles = flavour.toggles();
        s
    }

    /// Seed a selection from the catalog's on/off defaults.
    pub fn from_defaults(catalog: &Catalog) -> (r: Self)
        ensures
            r@ == defaults_view(*catalog),
            strictly_sorted(r.selected@),
    {
        let ghost pred = |i: Item| i.default;
        let ghost f = |i: Item| i.id@;
        let mut s = Self::default();
        let n = catalog.items.len();
        let mut k: usize = 0;
        while k < n
            invariant
                n == catalog.items@.len(),
                k <= n,
                pred == (|i: Item| i.default),
                f == (|i: Item| i.id@),
                s@ == (SelectionView {
                    selected: catalog.items@.take(k as int).filter(pred).map_values(f).to_set(),
                    ..default_view()
                }),
                strictly_sorted(s.selected@),
            decreases n - k,
        {
            let ghost items = catalog.items@;
            proof {
                assert(items.take(k + 1) =~= items.take(k as int).push(items[k as int]));
                items.take(k as int).lemma_filter_push(items[k as int], pred);
                let fs = items.take(k as int).filter(pred);
                assert(fs.push(items[k as int]).map_values(f) =~= fs.map_values(f).push(
                    items[k as int].id@,
                ));
                fs.map_values(f).lemma_push_to_set_commute(items[k as int].id@);
            }
            if catalog.items[k].default {
                s.selected.insert(catalog.items[k].id.clone());
            }
            assert(s@ =~= SelectionView {
                selected: catalog.items@.take(k + 1).filter(pred).map_values(f).to_set(),
                ..default_view()
            });
            k = k + 1;
        }
        assert(catalog.items@.take(n as int) =~= catalog.items@);
        s
    }
}


pub proof fn lemma_lines_text_push(ls: Seq<Seq<char>>, l: Seq<char>)
    ensures
        joined_lines(ls.push(l), '\n') == joined_lines(ls, '\n') + l + seq!['\n'],
{
    assert(ls.push(l).drop_last() =~= ls);
}

/// Build the ids of `words` into an ordered set.
fn id_set_of(ws: &Vec<String>) -> (r: IdSet)
    ensures
        r@.to_set() == string_views(ws@).to_set(),
        strictly_sorted(r@),
{
    let ghost v = string_views(ws@);
    let mut set = IdSet::new();
    let n = ws.len();
    let mut i: usize = 0;
    assert(v.take(0).to_set() =~= Set::<Seq<char>>::empty());
    while i < n
        invariant
            n == ws@.len(),
            v == string_views(ws@),
            i <= n,
            set@.to_set() == v.take(i as int).to_set(),
            strictly_sorted(set@),
        decreases n - i,
    {
        set.insert(ws[i].clone());
        proof {
            assert(v.take(i + 1) =~= v.take(i as int).push(v[i as int]));
            v.take(i as int).lemma_push_to_set_commute(v[i as int]);
        }
        i = i + 1;
    }
    assert(v.take(n as int) =~= v);
    set
}

impl Selection {
    /// Apply one `KEY=value` setting.
    fn apply_setting(&mut self, key: &str, val: String)
        requires
            strictly_sorted(old(self).selected@),
        ensures
            final(self)@ == apply_setting(old(self)@, key@, val@),
            strictly_sorted(final(self).selected@),
    {
        let ghost m = self@;
        if same_text(key, "NEWMAC_SELECTED") {
            let ws = split_words(val.as_str());
            self.selected = id_set_of(&ws);
        } else if same_text(key, "NEWMAC_THEME") {
            self.theme = val;
        } else if same_text(key, "NEWMAC_GLASS") {
            self.glass = as_bool(val.as_str());
        } else if same_text(key, "NEWMAC_TOGGLE_RICING") {
            self.toggles.ricing = as_bool(val.as_str());
        } else if same_text(key, "NEWMAC_TOGGLE_MACOS_DEFAULTS") {
            self.toggles.macos_defaults = as_bool(val.as_str());
        } else if same_text(key, "NEWMAC_TOGGLE_POWER") {
            self.toggles.power = as_bool(val.as_str());
        } else if same_text(key, "NEWMAC_TOGGLE_SCHEDULE") {
            self.toggles.schedule = as_bool(val.as_str());
        } else if same_text(key, "NEWMAC_TOGGLE_DOCK") {
            self.toggles.dock = as_bool(val.as_str());
        } else if same_text(key, "NEWMAC_EXTRA_BREW") {
            self.extra_brew = split_words(val.as_str());
        } else if same_text(key, "NEWMAC_EXTRA_CASK") {
            self.extra_cask = split_words(val.as_str());
        }
        assert(final(self)@ =~= apply_setting(m, key@, val@));
    }

    /// Apply one line of `newmac.conf`.
    fn apply_conf_line(&mut self, raw: &str)
        requires
            strictly_sorted(old(self).selected@),
        ensures
            final(self)@ == apply_line(old(self)@, raw@),
            strictly_sorted(final(self).selected@),
    {
        let line = trim_str(raw);
        let n = line.unicode_len();
        if n == 0 || line.get_char(0) == '#' {
            return;
        }
        match find_char(line, '=') {
            None => {
                proof {
                    lemma_index_of(line@, '=', None);
                }
            },
            Some(i) => {
                proof {
                    lemma_index_of(line@, '=', Some(i as int));
                }
                let key = trim_str(line.substring_char(0, i));
                let val = unquote(line.substring_char(i + 1, n));
                assert(line@.subrange(0, i as int) =~= line@.take(i as int));
                assert(line@.subrange(i + 1, n as int) =~= line@.skip(i + 1));
                self.apply_setting(key, val);
            },
        }
    }

    /// The selection the picker starts from: the conf's when one was read
    /// and it selects something, else the catalog's defaults.
    pub fn load_or_defaults(catalog: &Catalog, conf: Option<&str>) -> (r: Self)
        ensures
            r@ == (match conf {
                Some(text) => if parsed_conf(text@).selected == Set::<Seq<char>>::empty() {
                    defaults_view(*catalog)
                } else {
                    parsed_conf(text@)
                },
                None => defaults_view(*catalog),
            }),
    {
        match conf {
            Some(text) => {
                let s = Self::parse_conf(text);
                proof {
                    if s.selected@.len() == 0 {
                        assert(s.selected@.to_set() =~= Set::<Seq<char>>::empty());
                    } else {
                        assert(s.selected@.to_set().contains(s.selected@[0]));
                    }
                }
                if s.selected.is_empty() {
                    Self::from_defaults(catalog)
                } else {
                    s
                }
            },
            None => Self::from_defaults(catalog),
        }
    }

    /// Parse an existing `newmac.conf`. Unknown keys are ignored so the file
    /// can gain fields without breaking older readers; settings missing from
    /// the file keep their defaults.
    pub fn parse_conf(text: &str) -> (r: Self)
        ensures
            r@ == parsed_conf(text@),
            strictly_sorted(r.selected@),
    {
        let mut s = Self::default();
        let lines = split_on(text, '\n');
        let ghost lv = crate::text::views_of(lines@);
        let n = lines.len();
        let mut i: usize = 0;
        assert(lv.take(0) =~= Seq::<Seq<char>>::empty());
        while i < n
            invariant
                n == lines@.len(),
                lv == crate::text::views_of(lines@),
                i <= n,
                s@ == apply_lines(default_view(), lv.take(i as int)),
                strictly_sorted(s.selected@),
            decreases n - i,
        {
            s.apply_conf_line(lines[i]);
            assert(lv.take(i + 1).drop_last() =~= lv.take(i as int));
            i = i + 1;
        }
        assert(lv.take(n as int) =~= lv);
        s
    }

    /// Render `newmac.conf` exactly as bash expects to source it: the
    /// selected ids in ascending order between a leading and a trailing space
    /// (so bash's `*" $id "*` membership test works), then the theme, a
    /// glass line only when glass is on, the toggles as `0`/`1`, and the
    /// custom lists only when non-empty.
    pub fn render_conf(&self, generated_note: &str) -> (r: String)
        ensures
            r@ == conf_text(*self, generated_note@),
    {
        let ghost target = conf_lines(
            self.selected@,
            self.theme@,
            self.glass,
            self.toggles,
            string_views(self.extra_brew@),
            string_views(self.extra_cask@),
            generated_note@,
        );
        let mut out = String::new();
        let ghost mut ls: Seq<Seq<char>> = Seq::empty();
        assert(out@ =~= joined_lines(ls, '\n'));

        let mut l = String::new();
        l.append("# newmac.conf — generated by ");
        l.append(generated_note);
        push_line(&mut out, l.as_str());
        proof {
            lemma_lines_text_push(ls, l@);
            ls = ls.push(l@);
        }

        push_line(&mut out, "# Edit by hand or re-run: newmac configure");
        proof {
            lemma_lines_text_push(ls, "# Edit by hand or re-run: newmac configure"@);
            ls = ls.push("# Edit by hand or re-run: newmac configure"@);
        }

        let ids = join_strings(self.selected.ids(), " ");
        let mut l = String::new();
        l.append("NEWMAC_SELECTED=\" ");
        l.append(ids.as_str());
        l.append(" \"");
        push_line(&mut out, l.as_str());
        proof {
            lemma_lines_text_push(ls, l@);
            ls = ls.push(l@);
        }

        let mut l = String::new();
        l.append("NEWMAC_THEME=");
        l.append(self.theme.as_str());
        push_line(&mut out, l.as_str());
        proof {
            lemma_lines_text_push(ls, l@);
            ls = ls.push(l@);
        }

        assert(ls =~= target.take(4));
        if self.glass {
            let mut l = String::new();
            l.append("NEWMAC_GLASS=");
            l.append(bit_str(true));
            push_line(&mut out, l.as_str());
            proof {
                lemma_lines_text_push(ls, l@);
                ls = ls.push(l@);
            }
        }
        let ghost g: int = if self.glass { 1 } else { 0 };
        assert(ls =~= target.take(4 + g));

        let mut l = String::new();
        l.append("NEWMAC_TOGGLE_RICING=");
        l.append(bit_str(self.toggles.ricing));
        push_line(&mut out, l.as_str());
        proof {
            lemma_lines_text_push(ls, l@);
            ls = ls.push(l@);
        }

        let mut l = String::new();
        l.append("NEWMAC_TOGGLE_MACOS_DEFAULTS=");
        l.append(bit_str(self.toggles.macos_defaults));
        push_line(&mut out, l.as_str());
        proof {
            lemma_lines_text_push(ls, l@);
            ls = ls.push(l@);
        }

        let mut l = String::new();
        l.append("NEWMAC_TOGGLE_POWER=");
        l.append(bit_str(self.toggles.power));
        push_line(&mut out, l.as_str());
        proof {
            lemma_lines_text_push(ls, l@);
            ls = ls.push(l@);
        }

        let mut l = String::new();
        l.append("NEWMAC_TOGGLE_SCHEDULE=");
        l.append(bit_str(self.toggles.schedule));
        push_line(&mut out, l.as_str());
        proof {
            lemma_lines_text_push(ls, l@);
            ls = ls.push(l@);
        }

        let mut l = String::new();
        l.append("NEWMAC_TOGGLE_DOCK=");
        l.append(bit_str(self.toggles.dock));
        push_line(&mut out, l.as_str());
        proof {
            lemma_lines_text_push(ls, l@);
            ls = ls.push(l@);
        }
        assert(ls =~= target.take(9 + g));

        if self.extra_brew.len() > 0 {
            let names = join_strings(&self.extra_brew, " ");
            let mut l = String::new();
            l.append("NEWMAC_EXTRA_BREW=\"");
            l.append(names.as_str());
            l.append("\"");
            push_line(&mut out, l.as_str());
            proof {
                lemma_lines_text_push(ls, l@);
                ls = ls.push(l@);
            }
        }
        if self.extra_cask.len() > 0 {
            let names = join_strings(&self.extra_cask, " ");
            let mut l = String::new();
            l.append("NEWMAC_EXTRA_CASK=\"");
            l.append(names.as_str());
            l.append("\"");
            push_line(&mut out, l.as_str());
            proof {
                lemma_lines_text_push(ls, l@);
                ls = ls.push(l@);
            }
        }
        assert(ls =~= target);
        out
    }
}


// ---- the conf round trip ---------------------------------------------------

/// A key the writer uses: non-empty, without `=`, not starting a comment and
/// with no white space at its ends.
pub open spec fn plain_key(key: Seq<char>) -> bool {
    &&& key.len() > 0
    &&& !is_ws(key[0])
    &&& !is_ws(key.last())
    &&& key[0] != '#'
    &&& forall|k: int| 0 <= k < key.len() ==> key[k] != '='
}

/// No line end in `s`.
pub open spec fn one_line(s: Seq<char>) -> bool {
    forall|k: int| 0 <= k < s.len() ==> s[k] != '\n'
}

proof fn lemma_apply_step(m: SelectionView, ls: Seq<Seq<char>>, k: int)
    requires
        0 <= k < ls.len(),
    ensures
        apply_lines(m, ls.take(k + 1)) == apply_line(apply_lines(m, ls.take(k)), ls[k]),
{
    assert(ls.take(k + 1).drop_last() =~= ls.take(k));
}

/// A `key=value` line written by [`Selection::render_conf`] reads back as the
/// setting of that key to the unquoted value.
proof fn lemma_setting_line(m: SelectionView, key: Seq<char>, v: Seq<char>)
    requires
        plain_key(key),
        v.len() == 0 || !is_ws(v.last()),
    ensures
        apply_line(m, key + "="@ + v) == apply_setting(m, key, unquoted(v)),
{
    reveal_strlit("=");
    let line = key + "="@ + v;
    assert(line[0] == key[0]);
    if v.len() == 0 {
        assert(line.last() == '=');
    } else {
        assert(line.last() == v.last());
    }
    assert(!is_ws('='));
    crate::text::lemma_trim_fixed(line);
    assert forall|k: int| 0 <= k < key.len() implies line[k] != '=' by {
        assert(line[k] == key[k]);
    }
    assert(line[key.len() as int] == '=');
    lemma_index_of(line, '=', Some(key.len() as int));
    assert(line.take(key.len() as int) =~= key);
    crate::text::lemma_trim_fixed(key);
    assert(line.skip(key.len() as int + 1) =~= v);
}

/// Words joined by spaces hold no line end.
proof fn lemma_join_one_line(ws: Seq<Seq<char>>)
    requires
        forall|i: int| 0 <= i < ws.len() ==> is_word(#[trigger] ws[i]),
    ensures
        one_line(join(ws, " "@)),
    decreases ws.len(),
{
    reveal_strlit(" ");
    if ws.len() == 1 {
        assert(is_word(ws[0]));
        assert forall|k: int| 0 <= k < ws[0].len() implies ws[0][k] != '\n' by {
            assert(!is_ws(ws[0][k]));
        }
    } else if ws.len() > 1 {
        let w1 = ws.drop_last();
        assert forall|i: int| 0 <= i < w1.len() implies is_word(#[trigger] w1[i]) by {
            assert(w1[i] == ws[i]);
        }
        lemma_join_one_line(w1);
        let l = ws.last();
        assert(is_word(ws[ws.len() - 1]));
        let j = join(ws, " "@);
        assert(j == join(w1, " "@) + " "@ + l);
        assert forall|k: int| 0 <= k < j.len() implies j[k] != '\n' by {
            let a = join(w1, " "@).len();
            if k < a {
                assert(j[k] == join(w1, " "@)[k]);
            } else if k == a {
                assert(j[k] == ' ');
            } else {
                assert(j[k] == l[k - a - 1]);
                assert(!is_ws(l[k - a - 1]));
            }
        }
    }
}

/// Words of the quoted, space-padded id list are the ids.
proof fn lemma_selected_value(ids: Seq<Seq<char>>)
    requires
        forall|i: int| 0 <= i < ids.len() ==> is_word(#[trigger] ids[i]),
    ensures
        words(unquoted("\" "@ + join(ids, " "@) + " \""@)) == ids,
{
    reveal_strlit("\" ");
    reveal_strlit(" \"");
    reveal_strlit(" ");
    let j = join(ids, " "@);
    let v = "\" "@ + j + " \""@;
    assert(v[0] == '"');
    assert(v.last() == '"');
    crate::text::lemma_trim_fixed(v);
    assert(v.subrange(1, v.len() - 1) =~= " "@ + (j + " "@));
    crate::text::lemma_words_concat(" "@, j + " "@);
    assert(words(" "@) =~= Seq::<Seq<char>>::empty()) by {
        assert(" "@.drop_last() =~= Seq::<char>::empty());
        assert(words(" "@.drop_last()) =~= Seq::<Seq<char>>::empty());
        assert(is_ws(" "@.last()));
    }
    assert((j + " "@).drop_last() =~= j);
    crate::text::lemma_words_join(ids);
    assert(Seq::<Seq<char>>::empty() + words(j) =~= words(j));
}

/// Words of a quoted space-joined list are its entries.
proof fn lemma_list_value(names: Seq<Seq<char>>)
    requires
        forall|i: int| 0 <= i < names.len() ==> is_word(#[trigger] names[i]),
    ensures
        words(unquoted("\""@ + join(names, " "@) + "\""@)) == names,
{
    reveal_strlit("\"");
    let j = join(names, " "@);
    let v = "\""@ + j + "\""@;
    assert(v[0] == '"');
    assert(v.last() == '"');
    crate::text::lemma_trim_fixed(v);
    assert(v.subrange(1, v.len() - 1) =~= j);
    crate::text::lemma_words_join(names);
}

/// `0`/`1` read back as the flag.
proof fn lemma_bit_value(b: bool)
    ensures
        truthy(unquoted(bit(b))) == b,
        bit(b).len() == 1,
        !is_ws(bit(b).last()),
        one_line(bit(b)),
{
    reveal_strlit("1");
    reveal_strlit("0");
    reveal_strlit("true");
    reveal_strlit("yes");
    reveal_strlit("on");
    let v = bit(b);
    crate::text::lemma_trim_fixed(v);
    assert(unquoted(v) == v);
    crate::text::lemma_trim_fixed(v);
}

proof fn lemma_keys()
    ensures
        plain_key("NEWMAC_SELECTED"@),
        plain_key("NEWMAC_THEME"@),
        plain_key("NEWMAC_GLASS"@),
        plain_key("NEWMAC_TOGGLE_RICING"@),
        plain_key("NEWMAC_TOGGLE_MACOS_DEFAULTS"@),
        plain_key("NEWMAC_TOGGLE_POWER"@),
        plain_key("NEWMAC_TOGGLE_SCHEDULE"@),
        plain_key("NEWMAC_TOGGLE_DOCK"@),
        plain_key("NEWMAC_EXTRA_BREW"@),
        plain_key("NEWMAC_EXTRA_CASK"@),
{
    reveal_strlit("NEWMAC_SELECTED");
    reveal_strlit("NEWMAC_THEME");
    reveal_strlit("NEWMAC_GLASS");
    reveal_strlit("NEWMAC_TOGGLE_RICING");
    reveal_strlit("NEWMAC_TOGGLE_MACOS_DEFAULTS");
    reveal_strlit("NEWMAC_TOGGLE_POWER");
    reveal_strlit("NEWMAC_TOGGLE_SCHEDULE");
    reveal_strlit("NEWMAC_TOGGLE_DOCK");
    reveal_strlit("NEWMAC_EXTRA_BREW");
    reveal_strlit("NEWMAC_EXTRA_CASK");
}


proof fn lemma_concat_one_line(a: Seq<char>, b: Seq<char>)
    requires
        one_line(a),
        one_line(b),
    ensures
        one_line(a + b),
{
    assert forall|k: int| 0 <= k < (a + b).len() implies (a + b)[k] != '\n' by {
        if k < a.len() {
            assert((a + b)[k] == a[k]);
        } else {
            assert((a + b)[k] == b[k - a.len()]);
        }
    }
}

/// A theme the reader gives back unchanged has no white space at its ends.
proof fn lemma_clean_value(t: Seq<char>)
    requires
        unquoted(t) == t,
    ensures
        trim(t) == t,
        t.len() == 0 || !is_ws(t.last()),
{
    crate::text::lemma_trim_len(t);
    let u = trim(t);
    if u.len() >= 2 && ((u[0] == '"' && u.last() == '"') || (u[0] == '\'' && u.last() == '\'')) {
        assert(unquoted(t).len() == u.len() - 2);
    }
}

/// The selected-ids line sets the selection to the ids.
proof fn lemma_line_selected(m: SelectionView, ids: Seq<Seq<char>>)
    requires
        forall|i: int| 0 <= i < ids.len() ==> is_word(#[trigger] ids[i]),
    ensures
        apply_line(m, "NEWMAC_SELECTED=\" "@ + join(ids, " "@) + " \""@) == (SelectionView {
            selected: ids.to_set(),
            ..m
        }),
        one_line("NEWMAC_SELECTED=\" "@ + join(ids, " "@) + " \""@),
{
    reveal_strlit("NEWMAC_SELECTED=\" ");
    reveal_strlit("NEWMAC_SELECTED");
    reveal_strlit("=");
    reveal_strlit("\" ");
    reveal_strlit(" \"");
    lemma_keys();
    let j = join(ids, " "@);
    let v = "\" "@ + j + " \""@;
    assert("NEWMAC_SELECTED=\" "@ + j + " \""@ =~= "NEWMAC_SELECTED"@ + "="@ + v);
    lemma_setting_line(m, "NEWMAC_SELECTED"@, v);
    lemma_selected_value(ids);
    lemma_join_one_line(ids);
    lemma_concat_one_line("NEWMAC_SELECTED=\" "@, j);
    lemma_concat_one_line("NEWMAC_SELECTED=\" "@ + j, " \""@);
}

/// The theme line sets the theme.
proof fn lemma_line_theme(m: SelectionView, theme: Seq<char>)
    requires
        unquoted(theme) == theme,
        one_line(theme),
    ensures
        apply_line(m, "NEWMAC_THEME="@ + theme) == (SelectionView { theme, ..m }),
        one_line("NEWMAC_THEME="@ + theme),
{
    reveal_strlit("NEWMAC_THEME=");
    reveal_strlit("NEWMAC_THEME");
    reveal_strlit("NEWMAC_SELECTED");
    reveal_strlit("=");
    lemma_keys();
    lemma_clean_value(theme);
    assert("NEWMAC_THEME="@ + theme =~= "NEWMAC_THEME"@ + "="@ + theme);
    lemma_setting_line(m, "NEWMAC_THEME"@, theme);
    lemma_concat_one_line("NEWMAC_THEME="@, theme);
}

/// The glass line sets the glass flag.
proof fn lemma_line_glass(m: SelectionView, b: bool)
    ensures
        apply_line(m, "NEWMAC_GLASS="@ + bit(b)) == (SelectionView { glass: b, ..m }),
        one_line("NEWMAC_GLASS="@ + bit(b)),
{
    reveal_strlit("NEWMAC_GLASS=");
    reveal_strlit("NEWMAC_GLASS");
    reveal_strlit("NEWMAC_SELECTED");
    reveal_strlit("NEWMAC_THEME");
    reveal_strlit("=");
    lemma_keys();
    lemma_bit_value(b);
    assert("NEWMAC_GLASS="@ + bit(b) =~= "NEWMAC_GLASS"@ + "="@ + bit(b));
    lemma_setting_line(m, "NEWMAC_GLASS"@, bit(b));
    lemma_concat_one_line("NEWMAC_GLASS="@, bit(b));
}

proof fn lemma_line_ricing(m: SelectionView, b: bool)
    ensures
        apply_line(m, "NEWMAC_TOGGLE_RICING="@ + bit(b)) == (SelectionView {
            toggles: Toggles { ricing: b, ..m.toggles },
            ..m
        }),
        one_line("NEWMAC_TOGGLE_RICING="@ + bit(b)),
{
    reveal_strlit("NEWMAC_TOGGLE_RICING=");
    reveal_strlit("NEWMAC_TOGGLE_RICING");
    reveal_strlit("NEWMAC_SELECTED");
    reveal_strlit("NEWMAC_THEME");
    reveal_strlit("NEWMAC_GLASS");
    reveal_strlit("=");
    lemma_keys();
    lemma_bit_value(b);
    assert("NEWMAC_TOGGLE_RICING="@ + bit(b) =~= "NEWMAC_TOGGLE_RICING"@ + "="@ + bit(b));
    lemma_setting_line(m, "NEWMAC_TOGGLE_RICING"@, bit(b));
    lemma_concat_one_line("NEWMAC_TOGGLE_RICING="@, bit(b));
}

proof fn lemma_line_macos(m: SelectionView, b: bool)
    ensures
        apply_line(m, "NEWMAC_TOGGLE_MACOS_DEFAULTS="@ + bit(b)) == (SelectionView {
            toggles: Toggles { macos_defaults: b, ..m.toggles },
            ..m
        }),
        one_line("NEWMAC_TOGGLE_MACOS_DEFAULTS="@ + bit(b)),
{
    reveal_strlit("NEWMAC_TOGGLE_MACOS_DEFAULTS=");
    reveal_strlit("NEWMAC_TOGGLE_MACOS_DEFAULTS");
    reveal_strlit("NEWMAC_SELECTED");
    reveal_strlit("NEWMAC_THEME");
    reveal_strlit("NEWMAC_GLASS");
    reveal_strlit("NEWMAC_TOGGLE_RICING");
    reveal_strlit("=");
    lemma_keys();
    lemma_bit_value(b);
    assert("NEWMAC_TOGGLE_MACOS_DEFAULTS="@ + bit(b) =~= "NEWMAC_TOGGLE_MACOS_DEFAULTS"@ + "="@
        + bit(b));
    lemma_setting_line(m, "NEWMAC_TOGGLE_MACOS_DEFAULTS"@, bit(b));
    lemma_concat_one_line("NEWMAC_TOGGLE_MACOS_DEFAULTS="@, bit(b));
}

proof fn lemma_line_power(m: SelectionView, b: bool)
    ensures
        apply_line(m, "NEWMAC_TOGGLE_POWER="@ + bit(b)) == (SelectionView {
            toggles: Toggles { power: b, ..m.toggles },
            ..m
        }),
        one_line("NEWMAC_TOGGLE_POWER="@ + bit(b)),
{
    reveal_strlit("NEWMAC_TOGGLE_POWER=");
    reveal_strlit("NEWMAC_TOGGLE_POWER");
    reveal_strlit("NEWMAC_SELECTED");
    reveal_strlit("NEWMAC_THEME");
    reveal_strlit("NEWMAC_GLASS");
    reveal_strlit("NEWMAC_TOGGLE_RICING");
    reveal_strlit("NEWMAC_TOGGLE_MACOS_DEFAULTS");
    reveal_strlit("=");
    lemma_keys();
    lemma_bit_value(b);
    assert("NEWMAC_TOGGLE_POWER="@ + bit(b) =~= "NEWMAC_TOGGLE_POWER"@ + "="@ + bit(b));
    lemma_setting_line(m, "NEWMAC_TOGGLE_POWER"@, bit(b));
    lemma_concat_one_line("NEWMAC_TOGGLE_POWER="@, bit(b));
}

proof fn lemma_line_schedule(m: SelectionView, b: bool)
    ensures
        apply_line(m, "NEWMAC_TOGGLE_SCHEDULE="@ + bit(b)) == (SelectionView {
            toggles: Toggles { schedule: b, ..m.toggles },
            ..m
        }),
        one_line("NEWMAC_TOGGLE_SCHEDULE="@ + bit(b)),
{
    reveal_strlit("NEWMAC_TOGGLE_SCHEDULE=");
    reveal_strlit("NEWMAC_TOGGLE_SCHEDULE");
    reveal_strlit("NEWMAC_SELECTED");
    reveal_strlit("NEWMAC_THEME");
    reveal_strlit("NEWMAC_GLASS");
    reveal_strlit("NEWMAC_TOGGLE_RICING");
    reveal_strlit("NEWMAC_TOGGLE_MACOS_DEFAULTS");
    reveal_strlit("NEWMAC_TOGGLE_POWER");
    reveal_strlit("=");
    lemma_keys();
    lemma_bit_value(b);
    assert("NEWMAC_TOGGLE_SCHEDULE="@ + bit(b) =~= "NEWMAC_TOGGLE_SCHEDULE"@ + "="@ + bit(b));
    lemma_setting_line(m, "NEWMAC_TOGGLE_SCHEDULE"@, bit(b));
    lemma_concat_one_line("NEWMAC_TOGGLE_SCHEDULE="@, bit(b));
}

proof fn lemma_line_dock(m: SelectionView, b: bool)
    ensures
        apply_line(m, "NEWMAC_TOGGLE_DOCK="@ + bit(b)) == (SelectionView {
            toggles: Toggles { dock: b, ..m.toggles },
            ..m
        }),
        one_line("NEWMAC_TOGGLE_DOCK="@ + bit(b)),
{
    reveal_strlit("NEWMAC_TOGGLE_DOCK=");
    reveal_strlit("NEWMAC_TOGGLE_DOCK");
    reveal_strlit("NEWMAC_SELECTED");
    reveal_strlit("NEWMAC_THEME");
    reveal_strlit("NEWMAC_GLASS");
    reveal_strlit("NEWMAC_TOGGLE_RICING");
    reveal_strlit("NEWMAC_TOGGLE_MACOS_DEFAULTS");
    reveal_strlit("NEWMAC_TOGGLE_POWER");
    reveal_strlit("NEWMAC_TOGGLE_SCHEDULE");
    reveal_strlit("=");
    lemma_keys();
    lemma_bit_value(b);
    assert("NEWMAC_TOGGLE_DOCK="@ + bit(b) =~= "NEWMAC_TOGGLE_DOCK"@ + "="@ + bit(b));
    lemma_setting_line(m, "NEWMAC_TOGGLE_DOCK"@, bit(b));
    lemma_concat_one_line("NEWMAC_TOGGLE_DOCK="@, bit(b));
}

proof fn lemma_line_brew(m: SelectionView, names: Seq<Seq<char>>)
    requires
        forall|i: int| 0 <= i < names.len() ==> is_word(#[trigger] names[i]),
    ensures
        apply_line(m, "NEWMAC_EXTRA_BREW=\""@ + join(names, " "@) + "\""@) == (SelectionView {
            extra_brew: names,
            ..m
        }),
        one_line("NEWMAC_EXTRA_BREW=\""@ + join(names, " "@) + "\""@),
{
    reveal_strlit("NEWMAC_EXTRA_BREW=\"");
    reveal_strlit("NEWMAC_EXTRA_BREW");
    reveal_strlit("NEWMAC_SELECTED");
    reveal_strlit("NEWMAC_THEME");
    reveal_strlit("NEWMAC_GLASS");
    reveal_strlit("NEWMAC_TOGGLE_RICING");
    reveal_strlit("NEWMAC_TOGGLE_MACOS_DEFAULTS");
    reveal_strlit("NEWMAC_TOGGLE_POWER");
    reveal_strlit("NEWMAC_TOGGLE_SCHEDULE");
    reveal_strlit("NEWMAC_TOGGLE_DOCK");
    reveal_strlit("=");
    reveal_strlit("\"");
    lemma_keys();
    let j = join(names, " "@);
    let v = "\""@ + j + "\""@;
    assert("NEWMAC_EXTRA_BREW=\""@ + j + "\""@ =~= "NEWMAC_EXTRA_BREW"@ + "="@ + v);
    lemma_setting_line(m, "NEWMAC_EXTRA_BREW"@, v);
    lemma_list_value(names);
    lemma_join_one_line(names);
    lemma_concat_one_line("NEWMAC_EXTRA_BREW=\""@, j);
    lemma_concat_one_line("NEWMAC_EXTRA_BREW=\""@ + j, "\""@);
}

proof fn lemma_line_cask(m: SelectionView, names: Seq<Seq<char>>)
    requires
        forall|i: int| 0 <= i < names.len() ==> is_word(#[trigger] names[i]),
    ensures
        apply_line(m, "NEWMAC_EXTRA_CASK=\""@ + join(names, " "@) + "\""@) == (SelectionView {
            extra_cask: names,
            ..m
        }),
        one_line("NEWMAC_EXTRA_CASK=\""@ + join(names, " "@) + "\""@),
{
    reveal_strlit("NEWMAC_EXTRA_CASK=\"");
    reveal_strlit("NEWMAC_EXTRA_CASK");
    reveal_strlit("NEWMAC_SELECTED");
    reveal_strlit("NEWMAC_THEME");
    reveal_strlit("NEWMAC_GLASS");
    reveal_strlit("NEWMAC_TOGGLE_RICING");
    reveal_strlit("NEWMAC_TOGGLE_MACOS_DEFAULTS");
    reveal_strlit("NEWMAC_TOGGLE_POWER");
    reveal_strlit("NEWMAC_TOGGLE_SCHEDULE");
    reveal_strlit("NEWMAC_TOGGLE_DOCK");
    reveal_strlit("NEWMAC_EXTRA_BREW");
    reveal_strlit("=");
    reveal_strlit("\"");
    lemma_keys();
    let j = join(names, " "@);
    let v = "\""@ + j + "\""@;
    assert("NEWMAC_EXTRA_CASK=\""@ + j + "\""@ =~= "NEWMAC_EXTRA_CASK"@ + "="@ + v);
    lemma_setting_line(m, "NEWMAC_EXTRA_CASK"@, v);
    lemma_list_value(names);
    lemma_join_one_line(names);
    lemma_concat_one_line("NEWMAC_EXTRA_CASK=\""@, j);
    lemma_concat_one_line("NEWMAC_EXTRA_CASK=\""@ + j, "\""@);
}

/// Comment lines change nothing.
proof fn lemma_line_comment(m: SelectionView, line: Seq<char>)
    requires
        line.len() > 0,
        line[0] == '#',
    ensures
        apply_line(m, line) == m,
{
    assert(!is_ws('#'));
    crate::text::lemma_trim_keeps_head(line);
}


/// Applying the written lines one after another rebuilds the selection.
#[verifier::rlimit(60)]
proof fn lemma_conf_lines_apply(sel: Selection, note: Seq<char>)
    requires
        forall|i: int| 0 <= i < sel.selected@.len() ==> is_word(#[trigger] sel.selected@[i]),
        unquoted(sel.theme@) == sel.theme@,
        one_line(sel.theme@),
        forall|i: int|
            0 <= i < sel.extra_brew@.len() ==> is_word(#[trigger] string_views(sel.extra_brew@)[i]),
        forall|i: int|
            0 <= i < sel.extra_cask@.len() ==> is_word(#[trigger] string_views(sel.extra_cask@)[i]),
    ensures
        apply_lines(
            default_view(),
            conf_lines(
                sel.selected@,
                sel.theme@,
                sel.glass,
                sel.toggles,
                string_views(sel.extra_brew@),
                string_views(sel.extra_cask@),
                note,
            ),
        ) == sel@,
{
    let ids = sel.selected@;
    let theme = sel.theme@;
    let t = sel.toggles;
    let brew = string_views(sel.extra_brew@);
    let cask = string_views(sel.extra_cask@);
    let ls = conf_lines(ids, theme, sel.glass, t, brew, cask, note);
    let m0 = default_view();
    reveal_strlit("# newmac.conf — generated by ");
    reveal_strlit("# Edit by hand or re-run: newmac configure");
    assert forall|i: int| 0 <= i < brew.len() implies is_word(#[trigger] brew[i]) by {}
    assert forall|i: int| 0 <= i < cask.len() implies is_word(#[trigger] cask[i]) by {}

    lemma_line_comment(m0, ls[0]);
    lemma_line_comment(m0, ls[1]);
    lemma_line_selected(m0, ids);
    let m3 = SelectionView { selected: ids.to_set(), ..m0 };
    lemma_line_theme(m3, theme);
    let m4 = SelectionView { theme, ..m3 };
    lemma_line_glass(m4, true);
    let m5 = SelectionView { glass: sel.glass, ..m4 };
    lemma_line_ricing(m5, t.ricing);
    let m6 = SelectionView { toggles: Toggles { ricing: t.ricing, ..m5.toggles }, ..m5 };
    lemma_line_macos(m6, t.macos_defaults);
    let m7 = SelectionView {
        toggles: Toggles { macos_defaults: t.macos_defaults, ..m6.toggles },
        ..m6
    };
    lemma_line_power(m7, t.power);
    let m8 = SelectionView { toggles: Toggles { power: t.power, ..m7.toggles }, ..m7 };
    lemma_line_schedule(m8, t.schedule);
    let m9 = SelectionView { toggles: Toggles { schedule: t.schedule, ..m8.toggles }, ..m8 };
    lemma_line_dock(m9, t.dock);
    let m10 = SelectionView { toggles: Toggles { dock: t.dock, ..m9.toggles }, ..m9 };
    lemma_line_brew(m10, brew);
    let m11 = if brew.len() > 0 {
        SelectionView { extra_brew: brew, ..m10 }
    } else {
        m10
    };
    lemma_line_cask(m11, cask);
    let m12 = if cask.len() > 0 {
        SelectionView { extra_cask: cask, ..m11 }
    } else {
        m11
    };

    assert(apply_lines(m0, ls.take(0)) == m0) by {
        assert(ls.take(0) =~= Seq::<Seq<char>>::empty());
    }
    lemma_apply_step(m0, ls, 0);
    lemma_apply_step(m0, ls, 1);
    lemma_apply_step(m0, ls, 2);
    lemma_apply_step(m0, ls, 3);
    assert(apply_lines(m0, ls.take(4)) == m4);
    let g: int = if sel.glass {
        1
    } else {
        0
    };
    if sel.glass {
        lemma_apply_step(m0, ls, 4);
    } else {
        assert(m5 == m4);
    }
    assert(apply_lines(m0, ls.take(4 + g)) == m5);
    lemma_apply_step(m0, ls, 4 + g);
    lemma_apply_step(m0, ls, 5 + g);
    lemma_apply_step(m0, ls, 6 + g);
    lemma_apply_step(m0, ls, 7 + g);
    lemma_apply_step(m0, ls, 8 + g);
    assert(apply_lines(m0, ls.take(9 + g)) == m10);
    let n = ls.len();
    if brew.len() > 0 {
        lemma_apply_step(m0, ls, 9 + g);
        assert(apply_lines(m0, ls.take(10 + g)) == m11);
        if cask.len() > 0 {
            lemma_apply_step(m0, ls, 10 + g);
        }
    } else {
        if cask.len() > 0 {
            lemma_apply_step(m0, ls, 9 + g);
        }
    }
    assert(ls.take(n as int) =~= ls);
    assert(m12 =~= sel@);
}

/// No written line holds a line end.
proof fn lemma_conf_lines_one_line(sel: Selection, note: Seq<char>)
    requires
        forall|i: int| 0 <= i < sel.selected@.len() ==> is_word(#[trigger] sel.selected@[i]),
        unquoted(sel.theme@) == sel.theme@,
        one_line(sel.theme@),
        forall|i: int|
            0 <= i < sel.extra_brew@.len() ==> is_word(#[trigger] string_views(sel.extra_brew@)[i]),
        forall|i: int|
            0 <= i < sel.extra_cask@.len() ==> is_word(#[trigger] string_views(sel.extra_cask@)[i]),
        one_line(note),
    ensures
        forall|i: int, k: int|
            0 <= i < conf_lines(
                sel.selected@,
                sel.theme@,
                sel.glass,
                sel.toggles,
                string_views(sel.extra_brew@),
                string_views(sel.extra_cask@),
                note,
            ).len() && 0 <= k < conf_lines(
                sel.selected@,
                sel.theme@,
                sel.glass,
                sel.toggles,
                string_views(sel.extra_brew@),
                string_views(sel.extra_cask@),
                note,
            )[i].len() ==> conf_lines(
                sel.selected@,
                sel.theme@,
                sel.glass,
                sel.toggles,
                string_views(sel.extra_brew@),
                string_views(sel.extra_cask@),
                note,
            )[i][k] != '\n',
{
    let ids = sel.selected@;
    let t = sel.toggles;
    let brew = string_views(sel.extra_brew@);
    let cask = string_views(sel.extra_cask@);
    let ls = conf_lines(ids, sel.theme@, sel.glass, t, brew, cask, note);
    let m0 = default_view();
    reveal_strlit("# newmac.conf — generated by ");
    reveal_strlit("# Edit by hand or re-run: newmac configure");
    assert forall|i: int| 0 <= i < brew.len() implies is_word(#[trigger] brew[i]) by {}
    assert forall|i: int| 0 <= i < cask.len() implies is_word(#[trigger] cask[i]) by {}
    lemma_line_selected(m0, ids);
    lemma_line_theme(m0, sel.theme@);
    lemma_line_glass(m0, true);
    lemma_line_ricing(m0, t.ricing);
    lemma_line_macos(m0, t.macos_defaults);
    lemma_line_power(m0, t.power);
    lemma_line_schedule(m0, t.schedule);
    lemma_line_dock(m0, t.dock);
    lemma_line_brew(m0, brew);
    lemma_line_cask(m0, cask);
    assert(one_line("# newmac.conf — generated by "@));
    lemma_concat_one_line("# newmac.conf — generated by "@, note);
    assert(one_line("# Edit by hand or re-run: newmac configure"@));
    assert forall|i: int, k: int| 0 <= i < ls.len() && 0 <= k < ls[i].len() implies ls[i][k]
        != '\n' by {
        assert(one_line(ls[i]));
    }
}

/// Reading back what [`Selection::render_conf`] wrote gives the selection
/// back: the same ids, theme, glass flag, toggles and custom lists (in
/// order) — for ids and custom names that are single words, a theme that the
/// reader keeps as it is, and a one-line note. The ids also come back in the
/// same order, since an ascending repeat-free list is fixed by its members.
pub proof fn lemma_conf_roundtrip(sel: Selection, note: Seq<char>)
    requires
        strictly_sorted(sel.selected@),
        forall|i: int| 0 <= i < sel.selected@.len() ==> is_word(#[trigger] sel.selected@[i]),
        unquoted(sel.theme@) == sel.theme@,
        one_line(sel.theme@),
        forall|i: int|
            0 <= i < sel.extra_brew@.len() ==> is_word(#[trigger] string_views(sel.extra_brew@)[i]),
        forall|i: int|
            0 <= i < sel.extra_cask@.len() ==> is_word(#[trigger] string_views(sel.extra_cask@)[i]),
        one_line(note),
    ensures
        parsed_conf(
            joined_lines(
                conf_lines(
                    sel.selected@,
                    sel.theme@,
                    sel.glass,
                    sel.toggles,
                    string_views(sel.extra_brew@),
                    string_views(sel.extra_cask@),
                    note,
                ),
                '\n',
            ),
        ) == sel@,
        forall|q: Seq<Seq<char>>|
            strictly_sorted(q) && q.to_set() == sel@.selected ==> q == sel.selected@,
{
    let ls = conf_lines(
        sel.selected@,
        sel.theme@,
        sel.glass,
        sel.toggles,
        string_views(sel.extra_brew@),
        string_views(sel.extra_cask@),
        note,
    );
    let text = joined_lines(ls, '\n');
    let m0 = default_view();
    lemma_conf_lines_apply(sel, note);
    lemma_conf_lines_one_line(sel, note);
    crate::text::lemma_split_joined_lines(ls, '\n', text);
    let e = Seq::<char>::empty();
    assert(ls.push(e).drop_last() =~= ls);
    assert(trim(e) =~= e);
    assert(parsed_conf(text) == apply_line(apply_lines(m0, ls), e));
    assert forall|q: Seq<Seq<char>>|
        strictly_sorted(q) && q.to_set() == sel@.selected implies q == sel.selected@ by {
        crate::idset::lemma_sorted_unique(q, sel.selected@);
    }
}


// ---- lines the reader ignores ------------------------------------------------

/// A key the conf reader acts on.
pub open spec fn conf_key(k: Seq<char>) -> bool {
    ||| k == "NEWMAC_SELECTED"@
    ||| k == "NEWMAC_THEME"@
    ||| k == "NEWMAC_GLASS"@
    ||| k == "NEWMAC_TOGGLE_RICING"@
    ||| k == "NEWMAC_TOGGLE_MACOS_DEFAULTS"@
    ||| k == "NEWMAC_TOGGLE_POWER"@
    ||| k == "NEWMAC_TOGGLE_SCHEDULE"@
    ||| k == "NEWMAC_TOGGLE_DOCK"@
    ||| k == "NEWMAC_EXTRA_BREW"@
    ||| k == "NEWMAC_EXTRA_CASK"@
}

/// A line the reader skips: blank, a `#` comment, without `=`, or whose key
/// (the trimmed text before the first `=`) is not one it knows.
pub open spec fn ignored_line(l: Seq<char>) -> bool {
    let t = trim(l);
    ||| t.len() == 0
    ||| t[0] == '#'
    ||| match index_of(t, '=') {
        None => true,
        Some(i) => !conf_key(trim(t.take(i))),
    }
}

proof fn lemma_ignored_line(m: SelectionView, l: Seq<char>)
    requires
        ignored_line(l),
    ensures
        apply_line(m, l) == m,
{
}

proof fn lemma_apply_concat(m: SelectionView, a: Seq<Seq<char>>, b: Seq<Seq<char>>)
    ensures
        apply_lines(m, a + b) == apply_lines(apply_lines(m, a), b),
    decreases b.len(),
{
    if b.len() == 0 {
        assert(a + b =~= a);
    } else {
        lemma_apply_concat(m, a, b.drop_last());
        assert((a + b).drop_last() =~= a + b.drop_last());
    }
}

/// Applying lines with an ignored line put in anywhere is applying them
/// without it.
proof fn lemma_apply_skips(m: SelectionView, ls: Seq<Seq<char>>, p: int, l: Seq<char>)
    requires
        0 <= p <= ls.len(),
        ignored_line(l),
    ensures
        apply_lines(m, ls.insert(p, l)) == apply_lines(m, ls),
{
    let a = ls.take(p);
    let b = ls.skip(p);
    assert(ls.insert(p, l) =~= (a + seq![l]) + b);
    assert(ls =~= a + b);
    lemma_apply_concat(m, a + seq![l], b);
    lemma_apply_concat(m, a, seq![l]);
    lemma_apply_concat(m, a, b);
    let x = apply_lines(m, a);
    assert(seq![l].drop_last() =~= Seq::<Seq<char>>::empty());
    assert(apply_lines(x, seq![l]) == apply_line(apply_lines(x, Seq::<Seq<char>>::empty()), l));
    lemma_ignored_line(x, l);
}

/// A text made of whole lines `ls` and a last, unended piece `last`.
pub open spec fn lines_text(ls: Seq<Seq<char>>, last: Seq<char>) -> Seq<char> {
    joined_lines(ls, '\n') + last
}

proof fn lemma_split_lines_text(ls: Seq<Seq<char>>, last: Seq<char>)
    requires
        forall|i: int| 0 <= i < ls.len() ==> one_line(#[trigger] ls[i]),
        one_line(last),
    ensures
        split_char(lines_text(ls, last), '\n') == ls.push(last),
{
    assert forall|i: int, k: int| 0 <= i < ls.len() && 0 <= k < ls[i].len() implies ls[i][k]
        != '\n' by {
        assert(one_line(ls[i]));
    }
    crate::text::lemma_split_joined_lines(ls, '\n', joined_lines(ls, '\n'));
    crate::text::lemma_split_char_extend(joined_lines(ls, '\n'), last, '\n');
    let p = ls.push(Seq::<char>::empty());
    assert(p.update(p.len() - 1, p.last() + last) =~= ls.push(last));
}

/// Blank lines, comments, lines without `=` and lines with a key the
/// reader does not know are ignored: putting one into a conf, as a whole line
/// anywhere before its last piece, reads back the same. A text made of such
/// lines alone (the empty text among them) reads as the defaults.
pub proof fn lemma_ignored_lines_change_nothing(
    ls: Seq<Seq<char>>,
    last: Seq<char>,
    p: int,
    l: Seq<char>,
)
    requires
        forall|i: int| 0 <= i < ls.len() ==> one_line(#[trigger] ls[i]),
        one_line(last),
        one_line(l),
        ignored_line(l),
        0 <= p <= ls.len(),
    ensures
        parsed_conf(lines_text(ls.insert(p, l), last)) == parsed_conf(lines_text(ls, last)),
        (forall|i: int| 0 <= i < ls.len() ==> ignored_line(#[trigger] ls[i])) && ignored_line(last)
            ==> parsed_conf(lines_text(ls, last)) == default_view(),
        parsed_conf(Seq::empty()) == default_view(),
{
    let ls2 = ls.insert(p, l);
    assert forall|i: int| 0 <= i < ls2.len() implies one_line(#[trigger] ls2[i]) by {
        ls.insert_ensures(p, l);
        if i < p {
            assert(ls2[i] == ls[i]);
        } else if i > p {
            assert(ls2[(i - 1) + 1] == ls[i - 1]);
        }
    }
    lemma_split_lines_text(ls, last);
    lemma_split_lines_text(ls2, last);
    assert(ls2.push(last) =~= ls.push(last).insert(p, l));
    lemma_apply_skips(default_view(), ls.push(last), p, l);
    if (forall|i: int| 0 <= i < ls.len() ==> ignored_line(#[trigger] ls[i])) && ignored_line(last) {
        let all = ls.push(last);
        assert forall|i: int| 0 <= i < all.len() implies ignored_line(#[trigger] all[i]) by {
            if i < ls.len() {
                assert(all[i] == ls[i]);
            }
        }
        lemma_all_ignored(default_view(), all);
    }
    let e = Seq::<char>::empty();
    assert(split_char(e, '\n') =~= seq![e]);
    assert(seq![e].drop_last() =~= Seq::<Seq<char>>::empty());
    assert(trim(e) =~= e);
    assert(apply_lines(default_view(), seq![e]) == apply_line(
        apply_lines(default_view(), Seq::<Seq<char>>::empty()),
        e,
    ));
}

proof fn lemma_all_ignored(m: SelectionView, ls: Seq<Seq<char>>)
    requires
        forall|i: int| 0 <= i < ls.len() ==> ignored_line(#[trigger] ls[i]),
    ensures
        apply_lines(m, ls) == m,
    decreases ls.len(),
{
    if ls.len() > 0 {
        let t = ls.drop_last();
        assert forall|i: int| 0 <= i < t.len() implies ignored_line(#[trigger] t[i]) by {
            assert(t[i] == ls[i]);
        }
        lemma_all_ignored(m, t);
        assert(ignored_line(ls[ls.len() - 1]));
        lemma_ignored_line(m, ls.last());
    }
}
} // verus!
