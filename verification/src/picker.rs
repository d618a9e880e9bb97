//! The picker's state and how keys and clicks change it.
//!
//! Drawing is not done here: the drawing layer reads an [`App`] and records
//! the geometry of every clickable list back into [`App::ui`], so clicks can
//! be mapped to rows. Work that leaves the process (writing the conf,
//! fetching the live Homebrew list) is not done here either: a key that needs
//! it returns an [`Effect`], the caller does the work, then hands the outcome
//! back ([`App::begin_save`] / [`App::finish_save`],
//! [`App::finish_refresh`]).
use crate::brew::{brew_label, BrewKind, Package};
use crate::catalog::{Catalog, Category, Item};
use crate::flavour::Flavour;
use crate::search::{matches_of, search_score, stable_desc, Searcher};
use crate::selection::{custom_list, default_view, Custom, Selection, SelectionView};
use crate::text::{same_text, string_views, trim, trim_str};
use crate::theme::Theme;
use vstd::prelude::*;

verus! {

/// A screen rectangle, in terminal cells.
#[derive(Debug, Clone, Copy, PartialEq, Eq, Structural)]
pub struct Rect {
    pub x: u16,
    pub y: u16,
    pub width: u16,
    pub height: u16,
}

/// The empty rectangle at the origin.
pub fn empty_rect() -> (r: Rect)
    ensures
        r == (Rect { x: 0, y: 0, width: 0, height: 0 }),
{
    Rect { x: 0, y: 0, width: 0, height: 0 }
}

/// Whether the cell `(col, row)` lies inside `r`.
pub open spec fn inside(r: Rect, col: u16, row: u16) -> bool {
    col >= r.x && col < r.x + r.width && row >= r.y && row < r.y + r.height
}

pub fn rect_contains(r: Rect, col: u16, row: u16) -> (b: bool)
    ensures
        b == inside(r, col, row),
{
    (col as u32) >= (r.x as u32) && (col as u32) < (r.x as u32) + (r.width as u32) && (row as u32)
        >= (r.y as u32) && (row as u32) < (r.y as u32) + (r.height as u32)
}

/// A drawn list: its inner (clickable) area and the first row it shows.
#[derive(Debug, Clone, Copy, PartialEq, Eq, Structural)]
pub struct Slot {
    pub rect: Rect,
    pub offset: usize,
}

/// The list row a click on screen row `row` lands on, if the row is inside
/// the list's rows.
pub open spec fn row_at(s: Slot, row: u16) -> Option<int> {
    if row < s.rect.y || row >= s.rect.y + s.rect.height {
        None
    } else {
        Some(s.offset + (row - s.rect.y))
    }
}

/// A click lands on a list row exactly when it is on one of the screen rows
/// the list was drawn on. The top drawn row shows the entry at the scroll
/// offset, each row below it the next entry; scrolling the same list by `o`
/// more moves every hit `o` entries further down the list.
pub proof fn lemma_row_at_follows_scroll(s: Slot, row: u16, o: usize)
    ensures
        (row_at(s, row) is Some) == (s.rect.y <= row < s.rect.y + s.rect.height),
        s.rect.height > 0 ==> row_at(s, s.rect.y) == Some(s.offset as int),
        s.rect.y <= row < u16::MAX && row + 1 < s.rect.y + s.rect.height ==> row_at(s, (row + 1) as u16)
            == Some(row_at(s, row)->0 + 1),
        row_at(Slot { offset: o, ..s }, row) == match row_at(Slot { offset: 0, ..s }, row) {
            Some(i) => Some(i + o),
            None => None,
        },
{
}

impl Slot {
    pub fn new() -> (r: Slot)
        ensures
            r == (Slot { rect: Rect { x: 0, y: 0, width: 0, height: 0 }, offset: 0 }),
    {
        Slot { rect: empty_rect(), offset: 0 }
    }

    /// Which row index a click at `row` maps to, accounting for scroll offset.
    pub fn index_at(&self, row: u16) -> (r: Option<usize>)
        ensures
            match row_at(*self, row) {
                Some(i) => if i <= usize::MAX {
                    r == Some(i as usize)
                } else {
                    r is None
                },
                None => r is None,
            },
    {
        if row < self.rect.y || (row as u32) >= (self.rect.y as u32) + (self.rect.height as u32) {
            return None;
        }
        let d = (row - self.rect.y) as usize;
        if self.offset > usize::MAX - d {
            return None;
        }
        Some(self.offset + d)
    }
}

/// Geometry recorded during drawing, consumed by mouse hit-testing.
#[derive(Debug, Clone, PartialEq, Eq)]
pub struct UiState {
    pub tabs_rect: Rect,
    /// `x0..x1` of each tab title, in tab order.
    pub tab_spans: Vec<(u16, u16)>,
    pub start: Slot,
    pub cat: Slot,
    pub items: Slot,
    pub brew: Slot,
    pub theme: Slot,
    pub options: Slot,
}

/// The recorded geometry, as values.
pub struct UiView {
    pub tabs_rect: Rect,
    pub tab_spans: Seq<(u16, u16)>,
    pub start: Slot,
    pub cat: Slot,
    pub items: Slot,
    pub brew: Slot,
    pub theme: Slot,
    pub options: Slot,
}

pub open spec fn ui_view(u: UiState) -> UiView {
    UiView {
        tabs_rect: u.tabs_rect,
        tab_spans: u.tab_spans@,
        start: u.start,
        cat: u.cat,
        items: u.items,
        brew: u.brew,
        theme: u.theme,
        options: u.options,
    }
}

/// Geometry before anything was drawn.
pub open spec fn empty_ui() -> UiView {
    let z = Slot { rect: Rect { x: 0, y: 0, width: 0, height: 0 }, offset: 0 };
    UiView {
        tabs_rect: Rect { x: 0, y: 0, width: 0, height: 0 },
        tab_spans: Seq::empty(),
        start: z,
        cat: z,
        items: z,
        brew: z,
        theme: z,
        options: z,
    }
}

impl UiState {
    pub fn new() -> (r: UiState)
        ensures
            ui_view(r) == empty_ui(),
    {
        let r = UiState {
            tabs_rect: empty_rect(),
            tab_spans: Vec::new(),
            start: Slot::new(),
            cat: Slot::new(),
            items: Slot::new(),
            brew: Slot::new(),
            theme: Slot::new(),
            options: Slot::new(),
        };
        assert(ui_view(r) =~= empty_ui());
        r
    }
}

/// A framework-agnostic mouse event.
#[derive(Debug, Clone, Copy, PartialEq, Eq, Structural)]
pub enum Mouse {
    /// Left click at (col, row).
    Down(u16, u16),
    /// Wheel (down?, col, row).
    Scroll(bool, u16, u16),
}

/// A framework-agnostic key.
#[derive(Debug, Clone, Copy, PartialEq, Eq, Structural)]
pub enum Key {
    Char(char),
    Enter,
    Esc,
    Backspace,
    Tab,
    BackTab,
    Up,
    Down,
    Left,
    Right,
    CtrlS,
}

/// The top-level tabs, in order.
#[derive(Debug, Clone, Copy, PartialEq, Eq, Structural)]
pub enum Tab {
    Packages,
    Browse,
    Theme,
    Options,
    Save,
}

pub open spec fn tab_number(t: Tab) -> int {
    match t {
        Tab::Packages => 0,
        Tab::Browse => 1,
        Tab::Theme => 2,
        Tab::Options => 3,
        Tab::Save => 4,
    }
}

/// The tab at position `i` of the five, counting round.
pub open spec fn tab_at(i: int) -> Tab {
    let k = i % 5;
    if k == 0 {
        Tab::Packages
    } else if k == 1 {
        Tab::Browse
    } else if k == 2 {
        Tab::Theme
    } else if k == 3 {
        Tab::Options
    } else {
        Tab::Save
    }
}

pub open spec fn tab_title(t: Tab) -> Seq<char> {
    match t {
        Tab::Packages => "Packages"@,
        Tab::Browse => "Browse Homebrew"@,
        Tab::Theme => "Theme"@,
        Tab::Options => "Options"@,
        Tab::Save => "Save"@,
    }
}

impl Tab {
    /// The five tabs in order.
    pub fn all() -> (r: [Tab; 5])
        ensures
            r@ == seq![Tab::Packages, Tab::Browse, Tab::Theme, Tab::Options, Tab::Save],
    {
        let r = [Tab::Packages, Tab::Browse, Tab::Theme, Tab::Options, Tab::Save];
        assert(r@ =~= seq![Tab::Packages, Tab::Browse, Tab::Theme, Tab::Options, Tab::Save]);
        r
    }

    pub fn title(self) -> (r: &'static str)
        ensures
            r@ == tab_title(self),
    {
        match self {
            Tab::Packages => "Packages",
            Tab::Browse => "Browse Homebrew",
            Tab::Theme => "Theme",
            Tab::Options => "Options",
            Tab::Save => "Save",
        }
    }

    pub fn index(self) -> (r: usize)
        ensures
            r == tab_number(self),
    {
        match self {
            Tab::Packages => 0,
            Tab::Browse => 1,
            Tab::Theme => 2,
            Tab::Options => 3,
            Tab::Save => 4,
        }
    }

    pub fn from_index(i: usize) -> (r: Tab)
        ensures
            r == tab_at(i as int),
    {
        let k = i % 5;
        if k == 0 {
            Tab::Packages
        } else if k == 1 {
            Tab::Browse
        } else if k == 2 {
            Tab::Theme
        } else if k == 3 {
            Tab::Options
        } else {
            Tab::Save
        }
    }
}

/// Which pane has keyboard focus on the Packages tab.
#[derive(Debug, Clone, Copy, PartialEq, Eq, Structural)]
pub enum Pane {
    Categories,
    Items,
}

/// Which of the two screens shows: the presets gate or the picker.
#[derive(Debug, Clone, Copy, PartialEq, Eq, Structural)]
pub enum Screen {
    Start,
    Picker,
}

/// An entry of the presets gate.
#[derive(Debug, Clone, Copy, PartialEq, Eq, Structural)]
pub enum StartEntry {
    /// Flavour number `i`.
    Flavour(usize),
    /// Start from the catalog defaults.
    Custom,
    /// Keep what the conf held.
    KeepCurrent,
}

#[derive(Debug, Clone, Copy, PartialEq, Eq, Structural)]
pub enum PromptKind {
    CustomFormula,
    CustomCask,
}

/// A short-lived text prompt (e.g. "add custom formula").
#[derive(Debug, Clone, PartialEq, Eq)]
pub struct Prompt {
    pub label: String,
    pub input: String,
    pub kind: PromptKind,
}

/// How the last install run ended.
#[derive(Debug, Clone, Copy, PartialEq, Eq, Structural)]
pub enum InstallOutcome {
    /// The installer exited with status 0.
    Succeeded,
    Failed(i32),
    DryRun,
}

/// Work a key or click asks of the caller.
#[derive(Debug, Clone, Copy, PartialEq, Eq, Structural)]
pub enum Effect {
    Nothing,
    /// Write the conf: [`App::begin_save`], write, [`App::finish_save`].
    Save,
    /// Fetch the live Homebrew list, then [`App::finish_refresh`].
    Refresh,
}

/// `v` counted round `n` places (0 when there are none).
pub open spec fn wrapped(v: int, n: int) -> int {
    if n <= 0 {
        0
    } else {
        v % n
    }
}

/// One step forward or back round `n` places.
pub fn wrap_step(idx: usize, forward: bool, n: usize) -> (r: usize)
    ensures
        r == wrapped(
            idx + (if forward {
                1int
            } else {
                -1int
            }),
            n as int,
        ),
        n > 0 ==> r < n,
{
    if n == 0 {
        return 0;
    }
    let m = idx % n;
    proof {
        vstd::arithmetic::div_mod::lemma_mod_bound(idx as int, n as int);
    }
    if forward {
        proof {
            vstd::arithmetic::div_mod::lemma_add_mod_noop(idx as int, 1, n as int);
            if n > 1 {
                vstd::arithmetic::div_mod::lemma_small_mod(1, n as nat);
            }
            if m + 1 < n {
                vstd::arithmetic::div_mod::lemma_small_mod((m + 1) as nat, n as nat);
            }
            vstd::arithmetic::div_mod::lemma_mod_self_0(n as int);
        }
        if m + 1 == n {
            0
        } else {
            m + 1
        }
    } else {
        proof {
            vstd::arithmetic::div_mod::lemma_sub_mod_noop(idx as int, 1, n as int);
            if n > 1 {
                vstd::arithmetic::div_mod::lemma_small_mod(1, n as nat);
            }
            vstd::arithmetic::div_mod::lemma_mod_add_multiples_vanish(-1, n as int);
            vstd::arithmetic::div_mod::lemma_small_mod((n - 1) as nat, n as nat);
            if m > 0 {
                vstd::arithmetic::div_mod::lemma_small_mod((m - 1) as nat, n as nat);
            }
        }
        if m == 0 {
            n - 1
        } else {
            m - 1
        }
    }
}

// ---- what the Packages tab shows -------------------------------------------

/// Ids of the categories a user picks in, in catalog order.
pub open spec fn selectable_ids(c: Catalog) -> Seq<Seq<char>> {
    c.categories@.filter(|x: Category| !x.always).map_values(|x: Category| x.id@)
}

/// The left-pane choices: `None` ("All") first, then each selectable category.
pub open spec fn cat_choices(c: Catalog) -> Seq<Option<Seq<char>>> {
    seq![None::<Seq<char>>] + selectable_ids(c).map_values(|id: Seq<char>| Some(id))
}

/// The category the left pane has chosen: none for "All" or a position past
/// the list.
pub open spec fn chosen(c: Catalog, cat_idx: int) -> Option<Seq<char>> {
    if 1 <= cat_idx <= selectable_ids(c).len() {
        Some(selectable_ids(c)[cat_idx - 1])
    } else {
        None
    }
}

/// The text an item is searched by.
pub open spec fn item_hay(it: Item) -> Seq<char> {
    it.name@ + " "@ + it.id@ + " "@ + it.description@
}

/// Scores of the first `n` items that are in a selectable category.
pub open spec fn item_scores(c: Catalog, q: Seq<char>, n: int) -> Seq<(usize, Option<u32>)>
    decreases n,
{
    if n <= 0 {
        Seq::empty()
    } else {
        let p = item_scores(c, q, n - 1);
        let it = c.items@[n - 1];
        if selectable_ids(c).contains(it.category@) {
            p.push(((n - 1) as usize, search_score(q, item_hay(it))))
        } else {
            p
        }
    }
}

/// Positions among the first `n` items of those in a selectable category
/// and, when one is chosen, in that category.
pub open spec fn browse_positions(c: Catalog, ch: Option<Seq<char>>, n: int) -> Seq<usize>
    decreases n,
{
    if n <= 0 {
        Seq::empty()
    } else {
        let p = browse_positions(c, ch, n - 1);
        let it = c.items@[n - 1];
        if selectable_ids(c).contains(it.category@) && (match ch {
            Some(x) => it.category@ == x,
            None => true,
        }) {
            p.push((n - 1) as usize)
        } else {
            p
        }
    }
}

/// The catalog positions the right pane lists: with a query, the matching
/// selectable items best first (ties in catalog order); without one, the
/// selectable items of the chosen category (or all), in catalog order.
pub open spec fn visible(c: Catalog, q: Seq<char>, cat_idx: int) -> Seq<usize> {
    if q.len() > 0 {
        stable_desc(matches_of(item_scores(c, q, c.items@.len() as int))).map_values(
            |x: (usize, u32)| x.0,
        )
    } else {
        browse_positions(c, chosen(c, cat_idx), c.items@.len() as int)
    }
}

/// Scores of the first `n` packages against the browse query.
pub open spec fn brew_scores(b: Seq<Package>, q: Seq<char>, n: int) -> Seq<(usize, Option<u32>)>
    decreases n,
{
    if n <= 0 {
        Seq::empty()
    } else {
        brew_scores(b, q, n - 1).push(
            ((n - 1) as usize, search_score(q, b[n - 1].name@ + " "@ + b[n - 1].desc@)),
        )
    }
}

/// The package positions the browse list shows: all, in order, without a
/// query; the matches best first with one.
pub open spec fn visible_brew_of(b: Seq<Package>, q: Seq<char>) -> Seq<usize> {
    if q.len() == 0 {
        Seq::new(b.len(), |i: int| i as usize)
    } else {
        stable_desc(matches_of(brew_scores(b, q, b.len() as int))).map_values(
            |x: (usize, u32)| x.0,
        )
    }
}

/// Whether a package is already among the custom additions of its kind.
pub open spec fn added(s: SelectionView, p: Package) -> bool {
    custom_list(s, p.kind == BrewKind::Cask).contains(p.name@)
}

} // verus!
