//! How a key changes the picker.
//!
//! [`key_step`] is the whole transition: the picker after the key, and the
//! work ([`Effect`]) the caller must then do. [`App::on_key`] is proved to
//! follow it. Each named step below is one thing a key can do; the steps are
//! opaque so that a statement about one key need not unfold the others
//! (`reveal` one to read it).
use crate::app::{
    app_wf, entries, prompt_view, shown, shown_brew, theme_index, theme_position, App, AppView,
    PromptView,
};
use crate::brew::{brew_label, BrewKind};
use crate::picker::{
    added, cat_choices, tab_at, tab_number, wrap_step, wrapped, Effect, Key, Pane, Prompt,
    PromptKind, Screen, StartEntry, Tab,
};
use crate::selection::{
    custom_list, defaults_view, flavour_view, with_custom_list, Custom, Selection, SelectionView,
    Toggles,
};
use crate::text::{pop_char, popped, push_char, trim, trim_str};
use vstd::prelude::*;

verus! {

/// One step forward or back round `n` places.
pub open spec fn step_index(i: usize, fwd: bool, n: int) -> usize {
    wrapped(
        i + (if fwd {
            1int
        } else {
            -1int
        }),
        n,
    ) as usize
}

// ---- the steps ---------------------------------------------------------------

/// The category cursor moved round the left pane's entries, the item
/// cursor back to the top.
#[verifier::opaque]
pub open spec fn category_moved(v: AppView, fwd: bool) -> AppView {
    AppView {
        cat_idx: step_index(v.cat_idx, fwd, cat_choices(v.catalog).len() as int),
        item_idx: 0,
        ..v
    }
}

/// The item cursor moved round the listed items, if there are any.
#[verifier::opaque]
pub open spec fn item_moved(v: AppView, fwd: bool) -> AppView {
    if shown(v).len() > 0 {
        AppView { item_idx: step_index(v.item_idx, fwd, shown(v).len() as int), ..v }
    } else {
        v
    }
}

/// The cursor moved on the Packages tab: the category cursor while that pane
/// has focus and nothing is searched, else the item cursor.
#[verifier::opaque]
pub open spec fn after_move(v: AppView, fwd: bool) -> AppView {
    if v.tab == Tab::Packages && v.pane == Pane::Categories && v.query.len() == 0 {
        category_moved(v, fwd)
    } else if v.tab == Tab::Packages {
        item_moved(v, fwd)
    } else {
        v
    }
}

/// The highlighted item flipped, and the status saying which way.
#[verifier::opaque]
pub open spec fn after_toggle_item(v: AppView) -> AppView {
    let vis = shown(v);
    if (v.item_idx as int) < vis.len() {
        let it = v.catalog.items@[vis[v.item_idx as int] as int];
        let was = v.sel.selected.contains(it.id@);
        AppView {
            sel: SelectionView {
                selected: if was {
                    v.sel.selected.remove(it.id@)
                } else {
                    v.sel.selected.insert(it.id@)
                },
                ..v.sel
            },
            status: if was {
                "Removed "@ + it.name@
            } else {
                "Selected "@ + it.name@
            },
            ..v
        }
    } else {
        v
    }
}

/// Ids of the items the right pane lists.
pub open spec fn shown_ids(v: AppView) -> Set<Seq<char>> {
    shown(v).map_values(|i: usize| v.catalog.items@[i as int].id@).to_set()
}

/// Every listed item selected (`on`) or deselected.
#[verifier::opaque]
pub open spec fn after_set_shown(v: AppView, on: bool) -> AppView {
    AppView {
        sel: SelectionView {
            selected: if on {
                v.sel.selected.union(shown_ids(v))
            } else {
                v.sel.selected.difference(shown_ids(v))
            },
            ..v.sel
        },
        status: if on {
            "Selected all shown"@
        } else {
            "Cleared all shown"@
        },
        ..v
    }
}

/// Focus moved to pane `p`.
#[verifier::opaque]
pub open spec fn focused(v: AppView, p: Pane) -> AppView {
    AppView { pane: p, ..v }
}

/// Space or Enter on the Packages tab: flip the highlighted item, or focus
/// the items first.
#[verifier::opaque]
pub open spec fn enter_items(v: AppView) -> AppView {
    if v.pane == Pane::Items {
        after_toggle_item(v)
    } else {
        focused(v, Pane::Items)
    }
}

/// `/`: typing now goes to the package search, over the items pane.
#[verifier::opaque]
pub open spec fn search_started(v: AppView) -> AppView {
    AppView {
        searching: true,
        pane: Pane::Items,
        status: "Search: type to filter · Esc clears · Enter keeps"@,
        ..v
    }
}

/// Esc in the search: query dropped, back to the top.
#[verifier::opaque]
pub open spec fn search_cleared(v: AppView) -> AppView {
    AppView { query: Seq::empty(), searching: false, item_idx: 0, status: "Search cleared"@, ..v }
}

/// Enter in the search: stop typing, keep the filter.
#[verifier::opaque]
pub open spec fn search_kept(v: AppView) -> AppView {
    AppView {
        searching: false,
        status: if v.query.len() == 0 {
            Seq::empty()
        } else {
            "Filtered by \""@ + v.query + "\" · Esc clears"@
        },
        ..v
    }
}

/// Backspace in the search.
#[verifier::opaque]
pub open spec fn query_popped(v: AppView) -> AppView {
    AppView { query: popped(v.query), item_idx: 0, ..v }
}

/// A character typed into the search.
#[verifier::opaque]
pub open spec fn query_pushed(v: AppView, c: char) -> AppView {
    AppView { query: v.query.push(c), item_idx: 0, ..v }
}

/// The browse cursor moved, if there is anything listed.
#[verifier::opaque]
pub open spec fn after_move_brew(v: AppView, fwd: bool) -> AppView {
    if shown_brew(v).len() > 0 {
        AppView { brew_idx: step_index(v.brew_idx, fwd, shown_brew(v).len() as int), ..v }
    } else {
        v
    }
}

/// Package `i` taken off the custom list of its kind.
#[verifier::opaque]
pub open spec fn brew_dropped(v: AppView, i: int) -> AppView {
    let p = v.brew[i];
    let cask = p.kind == BrewKind::Cask;
    AppView {
        sel: with_custom_list(
            v.sel,
            cask,
            custom_list(v.sel, cask).filter(|n: Seq<char>| n != p.name@),
        ),
        status: "Removed "@ + p.name@,
        ..v
    }
}

/// Package `i` added to the custom list of its kind.
#[verifier::opaque]
pub open spec fn brew_taken(v: AppView, i: int) -> AppView {
    let p = v.brew[i];
    let cask = p.kind == BrewKind::Cask;
    AppView {
        sel: with_custom_list(v.sel, cask, custom_list(v.sel, cask).push(p.name@)),
        status: "Added "@ + p.name@ + " ("@ + brew_label(p.kind) + ")"@,
        ..v
    }
}

/// The highlighted package added to the custom list of its kind, or taken
/// off it when it was there.
#[verifier::opaque]
pub open spec fn after_toggle_brew(v: AppView) -> AppView {
    let vis = shown_brew(v);
    if (v.brew_idx as int) < vis.len() {
        let i = vis[v.brew_idx as int] as int;
        if added(v.sel, v.brew[i]) {
            brew_dropped(v, i)
        } else {
            brew_taken(v, i)
        }
    } else {
        v
    }
}

/// The prompt for a custom cask (`cask`) or formula.
pub open spec fn custom_prompt(cask: bool) -> PromptView {
    if cask {
        PromptView {
            label: "Add custom cask (brew install --cask)"@,
            input: Seq::empty(),
            kind: PromptKind::CustomCask,
        }
    } else {
        PromptView {
            label: "Add custom formula (brew install)"@,
            input: Seq::empty(),
            kind: PromptKind::CustomFormula,
        }
    }
}

/// `c` / `C`: a prompt for a custom formula / cask opened.
#[verifier::opaque]
pub open spec fn prompt_opened(v: AppView, cask: bool) -> AppView {
    AppView { prompt: Some(custom_prompt(cask)), ..v }
}

/// `/` on the Browse tab.
#[verifier::opaque]
pub open spec fn brew_search_started(v: AppView) -> AppView {
    AppView { brew_searching: true, status: "Search Homebrew: type to filter · Esc clears"@, ..v }
}

/// `r`: the live list asked for.
#[verifier::opaque]
pub open spec fn refreshing(v: AppView) -> AppView {
    AppView { status: "Refreshing from formulae.brew.sh…"@, ..v }
}

/// Esc in the Homebrew search.
#[verifier::opaque]
pub open spec fn brew_search_cleared(v: AppView) -> AppView {
    AppView { brew_query: Seq::empty(), brew_searching: false, brew_idx: 0, ..v }
}

/// Enter in the Homebrew search.
#[verifier::opaque]
pub open spec fn brew_search_kept(v: AppView) -> AppView {
    AppView { brew_searching: false, ..v }
}

/// Backspace in the Homebrew search.
#[verifier::opaque]
pub open spec fn brew_query_popped(v: AppView) -> AppView {
    AppView { brew_query: popped(v.brew_query), brew_idx: 0, ..v }
}

/// A character typed into the Homebrew search.
#[verifier::opaque]
pub open spec fn brew_query_pushed(v: AppView, c: char) -> AppView {
    AppView { brew_query: v.brew_query.push(c), brew_idx: 0, ..v }
}

/// Esc in a prompt.
#[verifier::opaque]
pub open spec fn prompt_closed(v: AppView) -> AppView {
    AppView { prompt: None, ..v }
}

/// Enter in prompt `p`: the trimmed input added to the custom list of the
/// prompt's kind, unless empty or already there.
#[verifier::opaque]
pub open spec fn after_prompt_enter(v: AppView, p: PromptView) -> AppView {
    let name = trim(p.input);
    let cask = p.kind == PromptKind::CustomCask;
    if name.len() == 0 {
        AppView { prompt: None, ..v }
    } else if custom_list(v.sel, cask).contains(name) {
        AppView { prompt: None, status: name + " already added"@, ..v }
    } else {
        AppView {
            prompt: None,
            sel: with_custom_list(v.sel, cask, custom_list(v.sel, cask).push(name)),
            status: "Added custom "@ + (if cask {
                "cask"@
            } else {
                "formula"@
            }) + " "@ + name,
            ..v
        }
    }
}

/// Backspace in prompt `p`.
#[verifier::opaque]
pub open spec fn prompt_popped(v: AppView, p: PromptView) -> AppView {
    AppView { prompt: Some(PromptView { input: popped(p.input), ..p }), ..v }
}

/// A character typed into prompt `p`.
#[verifier::opaque]
pub open spec fn prompt_pushed(v: AppView, p: PromptView, c: char) -> AppView {
    AppView { prompt: Some(PromptView { input: p.input.push(c), ..p }), ..v }
}

/// The theme cursor moved round the themes.
#[verifier::opaque]
pub open spec fn theme_moved(v: AppView, fwd: bool) -> AppView {
    AppView { theme_idx: step_index(v.theme_idx, fwd, v.themes.len() as int), ..v }
}

/// The highlighted theme applied.
#[verifier::opaque]
pub open spec fn after_apply_theme(v: AppView) -> AppView {
    AppView {
        sel: SelectionView { theme: v.themes[v.theme_idx as int].id@, ..v.sel },
        status: "Theme: "@ + v.themes[v.theme_idx as int].title@,
        ..v
    }
}

/// The toggles with row `i` of the Options tab flipped.
pub open spec fn flip_option(t: Toggles, i: usize) -> Toggles {
    if i == 0 {
        Toggles { ricing: !t.ricing, ..t }
    } else if i == 1 {
        Toggles { macos_defaults: !t.macos_defaults, ..t }
    } else if i == 2 {
        Toggles { power: !t.power, ..t }
    } else if i == 3 {
        Toggles { schedule: !t.schedule, ..t }
    } else if i == 4 {
        Toggles { dock: !t.dock, ..t }
    } else {
        t
    }
}

/// The options cursor moved round the five rows.
#[verifier::opaque]
pub open spec fn option_moved(v: AppView, fwd: bool) -> AppView {
    AppView { option_idx: step_index(v.option_idx, fwd, 5), ..v }
}

/// The highlighted option flipped.
#[verifier::opaque]
pub open spec fn after_flip_option(v: AppView) -> AppView {
    AppView { sel: SelectionView { toggles: flip_option(v.sel.toggles, v.option_idx), ..v.sel }, ..v }
}

/// An install (`dry`: a dry run) asked of the caller.
#[verifier::opaque]
pub open spec fn install_asked(v: AppView, dry: bool) -> AppView {
    if dry {
        AppView { dryrun_requested: true, ..v }
    } else {
        AppView { install_requested: true, ..v }
    }
}

/// The selection a start entry seeds.
pub open spec fn seeded(v: AppView, e: StartEntry) -> SelectionView {
    match e {
        StartEntry::Flavour(j) => flavour_view(v.catalog, v.flavours[j as int]),
        StartEntry::Custom => defaults_view(v.catalog),
        StartEntry::KeepCurrent => v.sel,
    }
}

/// Start entry `i` chosen: its selection, the theme cursor on its theme, and
/// on to the Packages tab of the picker.
#[verifier::opaque]
pub open spec fn after_choose(v: AppView, i: int) -> AppView {
    let s = seeded(v, entries(v)[i]);
    AppView {
        sel: s,
        theme_idx: theme_position(v.themes, s.theme) as usize,
        screen: Screen::Picker,
        tab: Tab::Packages,
        ..v
    }
}

/// The presets cursor moved round the entries.
#[verifier::opaque]
pub open spec fn start_moved(v: AppView, fwd: bool) -> AppView {
    AppView { start_idx: step_index(v.start_idx, fwd, entries(v).len() as int), ..v }
}

/// Enter on the presets screen: the highlighted entry chosen, if there is one.
#[verifier::opaque]
pub open spec fn start_chosen(v: AppView) -> AppView {
    if (v.start_idx as int) < entries(v).len() {
        after_choose(v, v.start_idx as int)
    } else {
        v
    }
}

#[verifier::opaque]
pub open spec fn quitting(v: AppView) -> AppView {
    AppView { should_quit: true, ..v }
}

/// The help overlay shown (`on`) or dismissed.
#[verifier::opaque]
pub open spec fn with_help(v: AppView, on: bool) -> AppView {
    AppView { show_help: on, ..v }
}

#[verifier::opaque]
pub open spec fn tab_switched(v: AppView, t: Tab) -> AppView {
    AppView { tab: t, ..v }
}

/// `b`: back to the presets screen.
#[verifier::opaque]
pub open spec fn to_start(v: AppView) -> AppView {
    AppView { screen: Screen::Start, ..v }
}

// ---- keys per screen and tab -------------------------------------------------

/// A key while typing a package search; `None` when the search does not
/// take it.
#[verifier::opaque]
pub open spec fn search_key(v: AppView, k: Key) -> Option<AppView> {
    match k {
        Key::Esc => Some(search_cleared(v)),
        Key::Enter => Some(search_kept(v)),
        Key::Backspace => Some(query_popped(v)),
        Key::Up => Some(after_move(v, false)),
        Key::Down => Some(after_move(v, true)),
        Key::Char(c) => if c == ' ' {
            Some(after_toggle_item(v))
        } else {
            Some(query_pushed(v, c))
        },
        _ => None,
    }
}

/// A key on the Packages tab.
#[verifier::opaque]
pub open spec fn packages_key(v: AppView, k: Key) -> AppView {
    match k {
        Key::Char(c) => if c == '/' {
            search_started(v)
        } else if c == 'h' {
            focused(v, Pane::Categories)
        } else if c == 'l' {
            focused(v, Pane::Items)
        } else if c == 'k' {
            after_move(v, false)
        } else if c == 'j' {
            after_move(v, true)
        } else if c == ' ' {
            enter_items(v)
        } else if c == 'a' {
            after_set_shown(v, true)
        } else if c == 'n' {
            after_set_shown(v, false)
        } else {
            v
        },
        Key::Left => focused(v, Pane::Categories),
        Key::Right => focused(v, Pane::Items),
        Key::Up => after_move(v, false),
        Key::Down => after_move(v, true),
        Key::Enter => enter_items(v),
        _ => v,
    }
}

/// A key on the Browse tab.
#[verifier::opaque]
pub open spec fn browse_key(v: AppView, k: Key) -> (AppView, Effect) {
    match k {
        Key::Char(c) => if c == '/' {
            (brew_search_started(v), Effect::Nothing)
        } else if c == 'k' {
            (after_move_brew(v, false), Effect::Nothing)
        } else if c == 'j' {
            (after_move_brew(v, true), Effect::Nothing)
        } else if c == ' ' || c == 'a' {
            (after_toggle_brew(v), Effect::Nothing)
        } else if c == 'c' {
            (prompt_opened(v, false), Effect::Nothing)
        } else if c == 'C' {
            (prompt_opened(v, true), Effect::Nothing)
        } else if c == 'r' {
            (refreshing(v), Effect::Refresh)
        } else {
            (v, Effect::Nothing)
        },
        Key::Up => (after_move_brew(v, false), Effect::Nothing),
        Key::Down => (after_move_brew(v, true), Effect::Nothing),
        Key::Enter => (after_toggle_brew(v), Effect::Nothing),
        _ => (v, Effect::Nothing),
    }
}

/// A key while typing a Homebrew search; `None` when the search does not
/// take it.
#[verifier::opaque]
pub open spec fn brew_search_key(v: AppView, k: Key) -> Option<AppView> {
    match k {
        Key::Esc => Some(brew_search_cleared(v)),
        Key::Enter => Some(brew_search_kept(v)),
        Key::Backspace => Some(brew_query_popped(v)),
        Key::Up => Some(after_move_brew(v, false)),
        Key::Down => Some(after_move_brew(v, true)),
        Key::Char(c) => Some(brew_query_pushed(v, c)),
        _ => None,
    }
}

/// A key while prompt `p` is open.
#[verifier::opaque]
pub open spec fn prompt_key(v: AppView, p: PromptView, k: Key) -> AppView {
    match k {
        Key::Esc => prompt_closed(v),
        Key::Enter => after_prompt_enter(v, p),
        Key::Backspace => prompt_popped(v, p),
        Key::Char(c) => prompt_pushed(v, p, c),
        _ => v,
    }
}

/// A key on the Theme tab.
#[verifier::opaque]
pub open spec fn theme_key(v: AppView, k: Key) -> AppView {
    match k {
        Key::Char(c) => if c == 'k' {
            theme_moved(v, false)
        } else if c == 'j' {
            theme_moved(v, true)
        } else if c == ' ' {
            after_apply_theme(v)
        } else {
            v
        },
        Key::Up => theme_moved(v, false),
        Key::Down => theme_moved(v, true),
        Key::Enter => after_apply_theme(v),
        _ => v,
    }
}

/// A key on the Options tab (five rows).
#[verifier::opaque]
pub open spec fn options_key(v: AppView, k: Key) -> AppView {
    match k {
        Key::Char(c) => if c == 'k' {
            option_moved(v, false)
        } else if c == 'j' {
            option_moved(v, true)
        } else if c == ' ' {
            after_flip_option(v)
        } else {
            v
        },
        Key::Up => option_moved(v, false),
        Key::Down => option_moved(v, true),
        Key::Enter => after_flip_option(v),
        _ => v,
    }
}

/// A key on the Save tab: save; or ask for an install or dry run, saving
/// first when nothing was saved yet.
#[verifier::opaque]
pub open spec fn save_key(v: AppView, k: Key) -> (AppView, Effect) {
    let first_save = if v.saved {
        Effect::Nothing
    } else {
        Effect::Save
    };
    match k {
        Key::Char(c) => if c == 's' {
            (v, Effect::Save)
        } else if c == 'i' {
            (install_asked(v, false), first_save)
        } else if c == 'd' {
            (install_asked(v, true), first_save)
        } else {
            (v, Effect::Nothing)
        },
        Key::Enter => (v, Effect::Save),
        _ => (v, Effect::Nothing),
    }
}

/// A key on the presets screen.
#[verifier::opaque]
pub open spec fn start_key(v: AppView, k: Key) -> AppView {
    match k {
        Key::Char(c) => if c == 'k' {
            start_moved(v, false)
        } else if c == 'j' {
            start_moved(v, true)
        } else if c == ' ' {
            start_chosen(v)
        } else if c == 'q' {
            quitting(v)
        } else if c == '?' {
            with_help(v, true)
        } else {
            v
        },
        Key::Up => start_moved(v, false),
        Key::Down => start_moved(v, true),
        Key::Enter => start_chosen(v),
        Key::Esc => quitting(v),
        _ => v,
    }
}

/// The tab a digit key names: `1` to `5`.
pub open spec fn digit_tab(c: char) -> Option<Tab> {
    if c == '1' {
        Some(Tab::Packages)
    } else if c == '2' {
        Some(Tab::Browse)
    } else if c == '3' {
        Some(Tab::Theme)
    } else if c == '4' {
        Some(Tab::Options)
    } else if c == '5' {
        Some(Tab::Save)
    } else {
        None
    }
}

/// A key the current tab handles.
#[verifier::opaque]
pub open spec fn tab_key(v: AppView, k: Key) -> (AppView, Effect) {
    match v.tab {
        Tab::Packages => (packages_key(v, k), Effect::Nothing),
        Tab::Browse => browse_key(v, k),
        Tab::Theme => (theme_key(v, k), Effect::Nothing),
        Tab::Options => (options_key(v, k), Effect::Nothing),
        Tab::Save => save_key(v, k),
    }
}

pub open spec fn next_tab(t: Tab) -> Tab {
    tab_at(tab_number(t) + 1)
}

pub open spec fn prev_tab(t: Tab) -> Tab {
    if tab_number(t) == 0 {
        Tab::Save
    } else {
        tab_at(tab_number(t) - 1)
    }
}

/// A key on the picker screen that no search mode took: quit, help, back to
/// the presets, switch tabs, save; else the tab's own keys.
#[verifier::opaque]
pub open spec fn picker_key(v: AppView, k: Key) -> (AppView, Effect) {
    match k {
        Key::Esc => (quitting(v), Effect::Nothing),
        Key::Tab => (tab_switched(v, next_tab(v.tab)), Effect::Nothing),
        Key::BackTab => (tab_switched(v, prev_tab(v.tab)), Effect::Nothing),
        Key::CtrlS => (tab_switched(v, Tab::Save), Effect::Save),
        Key::Char(c) => if c == 'q' {
            (quitting(v), Effect::Nothing)
        } else if c == '?' {
            (with_help(v, true), Effect::Nothing)
        } else if c == 'b' {
            (to_start(v), Effect::Nothing)
        } else if c == ']' {
            (tab_switched(v, next_tab(v.tab)), Effect::Nothing)
        } else if c == '[' {
            (tab_switched(v, prev_tab(v.tab)), Effect::Nothing)
        } else if digit_tab(c) is Some {
            (tab_switched(v, digit_tab(c)->0), Effect::Nothing)
        } else {
            tab_key(v, k)
        },
        _ => tab_key(v, k),
    }
}

/// What one key does to the picker, and the work it leaves to the caller.
/// An open help overlay takes any key to close; an open prompt takes every
/// key; the presets screen has its own keys; a search in progress takes the
/// keys it edits with.
#[verifier::opaque]
pub open spec fn key_step(v: AppView, k: Key) -> (AppView, Effect) {
    if v.show_help {
        (with_help(v, false), Effect::Nothing)
    } else if v.prompt is Some {
        (prompt_key(v, v.prompt->0, k), Effect::Nothing)
    } else if v.screen == Screen::Start {
        (start_key(v, k), Effect::Nothing)
    } else if v.tab == Tab::Packages && v.searching && search_key(v, k) is Some {
        (search_key(v, k)->0, Effect::Nothing)
    } else if v.tab == Tab::Browse && v.brew_searching && brew_search_key(v, k) is Some {
        (brew_search_key(v, k)->0, Effect::Nothing)
    } else {
        picker_key(v, k)
    }
}

// ---- laws --------------------------------------------------------------------

/// A step forward then back (or back then forward) leaves a cursor where it
/// was, on any list.
pub proof fn lemma_step_round_trip(i: usize, n: int, fwd: bool)
    requires
        0 <= i < n,
        n <= usize::MAX,
    ensures
        step_index(step_index(i, fwd, n), !fwd, n) == i,
{
    let j = step_index(i, fwd, n);
    vstd::arithmetic::div_mod::lemma_mod_self_0(n);
    vstd::arithmetic::div_mod::lemma_small_mod(i as nat, n as nat);
    vstd::arithmetic::div_mod::lemma_mod_add_multiples_vanish(-1, n);
    vstd::arithmetic::div_mod::lemma_small_mod((n - 1) as nat, n as nat);
    if fwd {
        if i + 1 < n {
            vstd::arithmetic::div_mod::lemma_small_mod((i + 1) as nat, n as nat);
        }
        assert(j == if i + 1 == n { 0 } else { i + 1 });
    } else {
        if i > 0 {
            vstd::arithmetic::div_mod::lemma_small_mod((i - 1) as nat, n as nat);
        }
        assert(j == if i == 0 { n - 1 } else { i - 1 });
        if j + 1 < n {
            vstd::arithmetic::div_mod::lemma_small_mod((j + 1) as nat, n as nat);
        }
    }
}

/// The next tab's previous tab is the tab itself, and the other way round.
pub proof fn lemma_tabs_round_trip(t: Tab)
    ensures
        prev_tab(next_tab(t)) == t,
        next_tab(prev_tab(t)) == t,
{
}

/// On the Options tab, with nothing open over it, Down then Up (or Up then
/// Down) leaves the picker as it was.
pub proof fn lemma_options_down_up(v: AppView, first: Key, second: Key)
    requires
        app_wf(v),
        !v.show_help,
        v.prompt is None,
        v.screen == Screen::Picker,
        v.tab == Tab::Options,
        v.option_idx < 5,
        (first == Key::Down && second == Key::Up) || (first == Key::Up && second == Key::Down),
    ensures
        key_step(key_step(v, first).0, second) == (v, Effect::Nothing),
{
    reveal(key_step);
    reveal(picker_key);
    reveal(tab_key);
    reveal(options_key);
    reveal(option_moved);
    let fwd = first == Key::Down;
    lemma_step_round_trip(v.option_idx, 5, fwd);
    let w = key_step(v, first).0;
    assert(w == AppView { option_idx: step_index(v.option_idx, fwd, 5), ..v });
}

/// The rows of the Options tab are, in order, ricing, macOS defaults, power,
/// schedule and dock: flipping row `i` flips that toggle and leaves the
/// other four as they were; flipping it twice gives the toggles back.
pub proof fn lemma_flip_option_rows(t: Toggles, i: usize)
    requires
        i < 5,
    ensures
        ({
            let r = flip_option(t, i);
            let before = seq![t.ricing, t.macos_defaults, t.power, t.schedule, t.dock];
            seq![r.ricing, r.macos_defaults, r.power, r.schedule, r.dock] == before.update(
                i as int,
                !before[i as int],
            )
        }),
        flip_option(flip_option(t, i), i) == t,
{
    let r = flip_option(t, i);
    let before = seq![t.ricing, t.macos_defaults, t.power, t.schedule, t.dock];
    assert(seq![r.ricing, r.macos_defaults, r.power, r.schedule, r.dock] =~= before.update(
        i as int,
        !before[i as int],
    ));
}

/// On the Options tab, with nothing open over it, Space flips the toggle of
/// the row under the cursor (ricing, macOS defaults, power, schedule, dock,
/// in that order) and changes nothing else.
pub proof fn lemma_space_flips_option_row(v: AppView)
    requires
        app_wf(v),
        !v.show_help,
        v.prompt is None,
        v.screen == Screen::Picker,
        v.tab == Tab::Options,
        v.option_idx < 5,
    ensures
        ({
            let (w, e) = key_step(v, Key::Char(' '));
            let t = v.sel.toggles;
            let r = w.sel.toggles;
            let before = seq![t.ricing, t.macos_defaults, t.power, t.schedule, t.dock];
            &&& e == Effect::Nothing
            &&& w == AppView { sel: SelectionView { toggles: r, ..v.sel }, ..v }
            &&& seq![r.ricing, r.macos_defaults, r.power, r.schedule, r.dock] == before.update(
                v.option_idx as int,
                !before[v.option_idx as int],
            )
        }),
{
    reveal(key_step);
    reveal(picker_key);
    reveal(tab_key);
    reveal(options_key);
    reveal(after_flip_option);
    lemma_flip_option_rows(v.sel.toggles, v.option_idx);
}

/// Typing a character into the package search and erasing it gives back the
/// query, with the cursor on top.
pub proof fn lemma_type_then_erase(v: AppView, c: char)
    ensures
        query_popped(query_pushed(v, c)) == (AppView { item_idx: 0, ..v }),
{
    reveal(query_popped);
    reveal(query_pushed);
    assert(v.query.push(c).drop_last() =~= v.query);
}

/// After "select all shown" every listed item is selected, after "clear all
/// shown" none is; the list itself does not change.
pub proof fn lemma_set_shown(v: AppView, on: bool, i: int)
    requires
        0 <= i < shown(v).len(),
    ensures
        shown(after_set_shown(v, on)) == shown(v),
        after_set_shown(v, on).sel.selected.contains(v.catalog.items@[shown(v)[i] as int].id@)
            == on,
{
    reveal(after_set_shown);
    reveal(shown);
    let f = |k: usize| v.catalog.items@[k as int].id@;
    assert(shown(v).map_values(f)[i] == f(shown(v)[i]));
    assert(shown_ids(v).contains(f(shown(v)[i])));
}

/// `w` holds the same data as `v`: catalog, themes, presets, where the conf
/// goes, the recorded geometry and the Homebrew list.
pub open spec fn same_data(v: AppView, w: AppView) -> bool {
    &&& w.catalog == v.catalog
    &&& w.themes == v.themes
    &&& w.flavours == v.flavours
    &&& w.had_conf == v.had_conf
    &&& w.conf_path == v.conf_path
    &&& w.repo_dir == v.repo_dir
    &&& w.ui == v.ui
    &&& w.brew == v.brew
}

/// Every step keeps the data.
pub(crate) proof fn lemma_steps_keep_data(v: AppView)
    ensures
        forall|fwd: bool| same_data(v, #[trigger] after_move(v, fwd)),
        same_data(v, after_toggle_item(v)),
        forall|on: bool| same_data(v, #[trigger] after_set_shown(v, on)),
        forall|p: Pane| same_data(v, #[trigger] focused(v, p)),
        same_data(v, enter_items(v)),
        same_data(v, search_started(v)),
        same_data(v, search_cleared(v)),
        same_data(v, search_kept(v)),
        same_data(v, query_popped(v)),
        forall|c: char| same_data(v, #[trigger] query_pushed(v, c)),
        forall|fwd: bool| same_data(v, #[trigger] after_move_brew(v, fwd)),
        same_data(v, after_toggle_brew(v)),
        forall|cask: bool| same_data(v, #[trigger] prompt_opened(v, cask)),
        same_data(v, brew_search_started(v)),
        same_data(v, refreshing(v)),
        same_data(v, brew_search_cleared(v)),
        same_data(v, brew_search_kept(v)),
        same_data(v, brew_query_popped(v)),
        forall|c: char| same_data(v, #[trigger] brew_query_pushed(v, c)),
        same_data(v, prompt_closed(v)),
        forall|p: PromptView| same_data(v, #[trigger] after_prompt_enter(v, p)),
        forall|p: PromptView| same_data(v, #[trigger] prompt_popped(v, p)),
        forall|p: PromptView, c: char| same_data(v, #[trigger] prompt_pushed(v, p, c)),
        forall|fwd: bool| same_data(v, #[trigger] theme_moved(v, fwd)),
        same_data(v, after_apply_theme(v)),
        forall|fwd: bool| same_data(v, #[trigger] option_moved(v, fwd)),
        same_data(v, after_flip_option(v)),
        forall|dry: bool| same_data(v, #[trigger] install_asked(v, dry)),
        forall|i: int| same_data(v, #[trigger] after_choose(v, i)),
        forall|fwd: bool| same_data(v, #[trigger] start_moved(v, fwd)),
        same_data(v, start_chosen(v)),
        same_data(v, quitting(v)),
        forall|on: bool| same_data(v, #[trigger] with_help(v, on)),
        forall|t: Tab| same_data(v, #[trigger] tab_switched(v, t)),
        same_data(v, to_start(v)),
{
    assert forall|fwd: bool| same_data(v, #[trigger] after_move(v, fwd)) by {
        reveal(after_move);
        reveal(category_moved);
        reveal(item_moved);
    }
    assert(same_data(v, after_toggle_item(v))) by {
        reveal(after_toggle_item);
    }
    assert forall|on: bool| same_data(v, #[trigger] after_set_shown(v, on)) by {
        reveal(after_set_shown);
    }
    assert forall|p: Pane| same_data(v, #[trigger] focused(v, p)) by {
        reveal(focused);
    }
    assert(same_data(v, enter_items(v))) by {
        reveal(enter_items);
        reveal(focused);
        reveal(after_toggle_item);
    }
    assert(same_data(v, search_started(v))) by {
        reveal(search_started);
    }
    assert(same_data(v, search_cleared(v))) by {
        reveal(search_cleared);
    }
    assert(same_data(v, search_kept(v))) by {
        reveal(search_kept);
    }
    assert(same_data(v, query_popped(v))) by {
        reveal(query_popped);
    }
    assert forall|c: char| same_data(v, #[trigger] query_pushed(v, c)) by {
        reveal(query_pushed);
    }
    assert forall|fwd: bool| same_data(v, #[trigger] after_move_brew(v, fwd)) by {
        reveal(after_move_brew);
    }
    assert(same_data(v, after_toggle_brew(v))) by {
        reveal(after_toggle_brew);
        reveal(brew_dropped);
        reveal(brew_taken);
    }
    assert forall|cask: bool| same_data(v, #[trigger] prompt_opened(v, cask)) by {
        reveal(prompt_opened);
    }
    assert(same_data(v, brew_search_started(v))) by {
        reveal(brew_search_started);
    }
    assert(same_data(v, refreshing(v))) by {
        reveal(refreshing);
    }
    assert(same_data(v, brew_search_cleared(v))) by {
        reveal(brew_search_cleared);
    }
    assert(same_data(v, brew_search_kept(v))) by {
        reveal(brew_search_kept);
    }
    assert(same_data(v, brew_query_popped(v))) by {
        reveal(brew_query_popped);
    }
    assert forall|c: char| same_data(v, #[trigger] brew_query_pushed(v, c)) by {
        reveal(brew_query_pushed);
    }
    assert(same_data(v, prompt_closed(v))) by {
        reveal(prompt_closed);
    }
    assert forall|p: PromptView| same_data(v, #[trigger] after_prompt_enter(v, p)) by {
        reveal(after_prompt_enter);
    }
    assert forall|p: PromptView| same_data(v, #[trigger] prompt_popped(v, p)) by {
        reveal(prompt_popped);
    }
    assert forall|p: PromptView, c: char| same_data(v, #[trigger] prompt_pushed(v, p, c)) by {
        reveal(prompt_pushed);
    }
    assert forall|fwd: bool| same_data(v, #[trigger] theme_moved(v, fwd)) by {
        reveal(theme_moved);
    }
    assert(same_data(v, after_apply_theme(v))) by {
        reveal(after_apply_theme);
    }
    assert forall|fwd: bool| same_data(v, #[trigger] option_moved(v, fwd)) by {
        reveal(option_moved);
    }
    assert(same_data(v, after_flip_option(v))) by {
        reveal(after_flip_option);
    }
    assert forall|dry: bool| same_data(v, #[trigger] install_asked(v, dry)) by {
        reveal(install_asked);
    }
    assert forall|i: int| same_data(v, #[trigger] after_choose(v, i)) by {
        reveal(after_choose);
    }
    assert forall|fwd: bool| same_data(v, #[trigger] start_moved(v, fwd)) by {
        reveal(start_moved);
    }
    assert(same_data(v, start_chosen(v))) by {
        reveal(start_chosen);
        reveal(after_choose);
    }
    assert(same_data(v, quitting(v))) by {
        reveal(quitting);
    }
    assert forall|on: bool| same_data(v, #[trigger] with_help(v, on)) by {
        reveal(with_help);
    }
    assert forall|t: Tab| same_data(v, #[trigger] tab_switched(v, t)) by {
        reveal(tab_switched);
    }
    assert(same_data(v, to_start(v))) by {
        reveal(to_start);
    }
}

proof fn lemma_tabs_keep_data(v: AppView, k: Key)
    ensures
        same_data(v, tab_key(v, k).0),
{
    lemma_steps_keep_data(v);
    reveal(tab_key);
    assert(same_data(v, packages_key(v, k))) by {
        reveal(packages_key);
    }
    assert(same_data(v, browse_key(v, k).0)) by {
        reveal(browse_key);
    }
    assert(same_data(v, theme_key(v, k))) by {
        reveal(theme_key);
    }
    assert(same_data(v, options_key(v, k))) by {
        reveal(options_key);
    }
    assert(same_data(v, save_key(v, k).0)) by {
        reveal(save_key);
    }
}

/// No key changes the catalog, the themes, the presets, where the conf goes,
/// the recorded geometry or the Homebrew list; only the selection, the
/// cursors, the text being typed and the picker's flags move.
pub proof fn lemma_keys_keep_data(v: AppView, k: Key)
    ensures
        same_data(v, key_step(v, k).0),
{
    lemma_steps_keep_data(v);
    lemma_tabs_keep_data(v, k);
    assert(same_data(v, picker_key(v, k).0)) by {
        reveal(picker_key);
    }
    if v.prompt is Some {
        assert(same_data(v, prompt_key(v, v.prompt->0, k))) by {
            reveal(prompt_key);
        }
    }
    assert(same_data(v, start_key(v, k))) by {
        reveal(start_key);
    }
    assert(search_key(v, k) is Some ==> same_data(v, search_key(v, k)->0)) by {
        reveal(search_key);
    }
    assert(brew_search_key(v, k) is Some ==> same_data(v, brew_search_key(v, k)->0)) by {
        reveal(brew_search_key);
    }
    reveal(key_step);
}

// ---- doing the steps -----------------------------------------------------------

/// The toggles with row `i` flipped.
fn flipped(t: Toggles, i: usize) -> (r: Toggles)
    ensures
        r == flip_option(t, i),
{
    let mut t = t;
    if i == 0 {
        t.ricing = !t.ricing;
    } else if i == 1 {
        t.macos_defaults = !t.macos_defaults;
    } else if i == 2 {
        t.power = !t.power;
    } else if i == 3 {
        t.schedule = !t.schedule;
    } else if i == 4 {
        t.dock = !t.dock;
    }
    t
}

/// `a` followed by `b`.
fn cat2(a: &str, b: &str) -> (r: String)
    ensures
        r@ == a@ + b@,
{
    let mut s = a.to_owned();
    s.append(b);
    s
}

/// The tab before `t`, counting round.
fn prev_of(t: Tab) -> (r: Tab)
    ensures
        r == prev_tab(t),
{
    let i = t.index();
    if i == 0 {
        Tab::Save
    } else {
        Tab::from_index(i - 1)
    }
}

/// The tab a digit key names.
fn digit(c: char) -> (r: Option<Tab>)
    ensures
        r == digit_tab(c),
{
    if c == '1' {
        Some(Tab::Packages)
    } else if c == '2' {
        Some(Tab::Browse)
    } else if c == '3' {
        Some(Tab::Theme)
    } else if c == '4' {
        Some(Tab::Options)
    } else if c == '5' {
        Some(Tab::Save)
    } else {
        None
    }
}

impl App {
    fn move_category(&mut self, fwd: bool)
        requires
            app_wf(old(self)@),
        ensures
            app_wf(final(self)@),
            final(self)@ == category_moved(old(self)@, fwd),
    {
        proof {
            reveal(category_moved);
            self.lemma_view();
        }
        let n = self.categories().len();
        let i = wrap_step(self.cat_idx, fwd, n);
        self.set_cat_idx(i);
        self.set_item_idx(0);
    }

    fn move_item(&mut self, fwd: bool)
        requires
            app_wf(old(self)@),
        ensures
            app_wf(final(self)@),
            final(self)@ == item_moved(old(self)@, fwd),
    {
        proof {
            reveal(item_moved);
        }
        let n = self.visible_items().len();
        proof {
            self.lemma_view();
        }
        if n > 0 {
            let i = wrap_step(self.item_idx, fwd, n);
            self.set_item_idx(i);
        }
    }

    pub(crate) fn move_cursor(&mut self, fwd: bool)
        requires
            app_wf(old(self)@),
        ensures
            app_wf(final(self)@),
            final(self)@ == after_move(old(self)@, fwd),
    {
        proof {
            reveal(after_move);
            self.lemma_view();
        }
        if self.tab == Tab::Packages && self.pane == Pane::Categories && self.query.unicode_len()
            == 0 {
            self.move_category(fwd);
        } else if self.tab == Tab::Packages {
            self.move_item(fwd);
        }
    }

    pub(crate) fn toggle_current_item(&mut self)
        requires
            app_wf(old(self)@),
        ensures
            app_wf(final(self)@),
            final(self)@ == after_toggle_item(old(self)@),
    {
        proof {
            reveal(after_toggle_item);
        }
        let ghost v0 = self@;
        let vis = self.visible_items();
        proof {
            self.lemma_view();
        }
        if self.item_idx < vis.len() {
            proof {
                crate::app::lemma_shown_in_range(v0);
            }
            let idx = vis[self.item_idx];
            let was = self.sel.is_selected(self.catalog.items[idx].id.as_str());
            let s = cat2(
                if was {
                    "Removed "
                } else {
                    "Selected "
                },
                self.catalog.items[idx].name.as_str(),
            );
            let id = self.catalog.items[idx].id.clone();
            self.toggle_id(id.as_str());
            self.set_status(s);
        }
    }

    pub(crate) fn set_visible(&mut self, on: bool)
        requires
            app_wf(old(self)@),
        ensures
            app_wf(final(self)@),
            final(self)@ == after_set_shown(old(self)@, on),
    {
        proof {
            reveal(after_set_shown);
        }
        let ghost v0 = self@;
        let vis = self.visible_items();
        proof {
            crate::app::lemma_shown_in_range(v0);
        }
        let ghost f = |i: usize| v0.catalog.items@[i as int].id@;
        let n = vis.len();
        let mut j: usize = 0;
        assert(vis@.take(0).map_values(f).to_set() =~= Set::<Seq<char>>::empty());
        assert(v0.sel.selected.union(Set::<Seq<char>>::empty()) =~= v0.sel.selected);
        assert(v0.sel.selected.difference(Set::<Seq<char>>::empty()) =~= v0.sel.selected);
        while j < n
            invariant
                vis@ == shown(v0),
                n == vis@.len(),
                j <= n,
                forall|t: int| 0 <= t < n ==> vis@[t] < v0.catalog.items@.len(),
                f == (|i: usize| v0.catalog.items@[i as int].id@),
                self@ == (AppView {
                    sel: SelectionView {
                        selected: if on {
                            v0.sel.selected.union(vis@.take(j as int).map_values(f).to_set())
                        } else {
                            v0.sel.selected.difference(vis@.take(j as int).map_values(f).to_set())
                        },
                        ..v0.sel
                    },
                    ..v0
                }),
            decreases n - j,
        {
            proof {
                self.lemma_view();
            }
            let k = vis[j];
            let id = self.catalog.items[k].id.clone();
            self.set_id(id.as_str(), on);
            proof {
                let t = vis@.take(j as int);
                assert(vis@.take(j + 1) =~= t.push(vis@[j as int]));
                assert(t.push(vis@[j as int]).map_values(f) =~= t.map_values(f).push(
                    f(vis@[j as int]),
                ));
                t.map_values(f).lemma_push_to_set_commute(f(vis@[j as int]));
                let a = t.map_values(f).to_set();
                let x = f(vis@[j as int]);
                if on {
                    assert(v0.sel.selected.union(a).insert(x) =~= v0.sel.selected.union(
                        a.insert(x),
                    ));
                } else {
                    assert(v0.sel.selected.difference(a).remove(x) =~= v0.sel.selected.difference(
                        a.insert(x),
                    ));
                }
            }
            j = j + 1;
        }
        assert(vis@.take(n as int) =~= vis@);
        self.set_status(
            if on {
                "Selected all shown".to_owned()
            } else {
                "Cleared all shown".to_owned()
            },
        );
    }

    pub(crate) fn focus(&mut self, p: Pane)
        requires
            app_wf(old(self)@),
        ensures
            app_wf(final(self)@),
            final(self)@ == focused(old(self)@, p),
    {
        proof {
            reveal(focused);
        }
        self.set_pane(p);
    }

    fn enter_items(&mut self)
        requires
            app_wf(old(self)@),
        ensures
            app_wf(final(self)@),
            final(self)@ == enter_items(old(self)@),
    {
        proof {
            reveal(enter_items);
            self.lemma_view();
        }
        if self.pane == Pane::Items {
            self.toggle_current_item();
        } else {
            self.focus(Pane::Items);
        }
    }

    fn start_search(&mut self)
        requires
            app_wf(old(self)@),
        ensures
            app_wf(final(self)@),
            final(self)@ == search_started(old(self)@),
    {
        proof {
            reveal(search_started);
        }
        self.set_searching(true);
        self.set_pane(Pane::Items);
        self.set_status("Search: type to filter · Esc clears · Enter keeps".to_owned());
    }

    fn clear_search(&mut self)
        requires
            app_wf(old(self)@),
        ensures
            app_wf(final(self)@),
            final(self)@ == search_cleared(old(self)@),
    {
        proof {
            reveal(search_cleared);
        }
        self.set_query(String::new());
        self.set_searching(false);
        self.set_item_idx(0);
        self.set_status("Search cleared".to_owned());
    }

    fn keep_search(&mut self)
        requires
            app_wf(old(self)@),
        ensures
            app_wf(final(self)@),
            final(self)@ == search_kept(old(self)@),
    {
        proof {
            reveal(search_kept);
            self.lemma_view();
        }
        let s = if self.query.unicode_len() == 0 {
            String::new()
        } else {
            let mut s = "Filtered by \"".to_owned();
            s.append(self.query.as_str());
            s.append("\" · Esc clears");
            s
        };
        self.set_searching(false);
        self.set_status(s);
    }

    fn pop_query(&mut self)
        requires
            app_wf(old(self)@),
        ensures
            app_wf(final(self)@),
            final(self)@ == query_popped(old(self)@),
    {
        proof {
            reveal(query_popped);
            self.lemma_view();
        }
        let mut q = self.query.clone();
        pop_char(&mut q);
        self.set_query(q);
        self.set_item_idx(0);
    }

    fn push_query(&mut self, c: char)
        requires
            app_wf(old(self)@),
        ensures
            app_wf(final(self)@),
            final(self)@ == query_pushed(old(self)@, c),
    {
        proof {
            reveal(query_pushed);
            self.lemma_view();
        }
        let mut q = self.query.clone();
        push_char(&mut q, c);
        self.set_query(q);
        self.set_item_idx(0);
    }

    pub(crate) fn move_brew(&mut self, fwd: bool)
        requires
            app_wf(old(self)@),
        ensures
            app_wf(final(self)@),
            final(self)@ == after_move_brew(old(self)@, fwd),
    {
        proof {
            reveal(after_move_brew);
        }
        let n = self.visible_brew().len();
        proof {
            self.lemma_view();
        }
        if n > 0 {
            let i = wrap_step(self.brew_idx, fwd, n);
            self.set_brew_idx(i);
        }
    }

    fn drop_brew(&mut self, i: usize)
        requires
            app_wf(old(self)@),
            i < old(self)@.brew.len(),
        ensures
            app_wf(final(self)@),
            final(self)@ == brew_dropped(old(self)@, i as int),
    {
        proof {
            reveal(brew_dropped);
            self.lemma_view();
        }
        let cask = self.brew[i].kind == BrewKind::Cask;
        let name = self.brew[i].name.clone();
        let s = cat2("Removed ", name.as_str());
        self.remove_custom_pkg(name.as_str(), cask);
        self.set_status(s);
    }

    fn take_brew(&mut self, i: usize)
        requires
            app_wf(old(self)@),
            i < old(self)@.brew.len(),
            !added(old(self)@.sel, old(self)@.brew[i as int]),
        ensures
            app_wf(final(self)@),
            final(self)@ == brew_taken(old(self)@, i as int),
    {
        proof {
            reveal(brew_taken);
            self.lemma_view();
        }
        let cask = self.brew[i].kind == BrewKind::Cask;
        let name = self.brew[i].name.clone();
        let mut s = cat2("Added ", name.as_str());
        s.append(" (");
        s.append(self.brew[i].kind.label());
        s.append(")");
        let c = Custom { name, cask };
        self.add_custom_pkg(&c);
        self.set_status(s);
    }

    pub(crate) fn toggle_current_brew(&mut self)
        requires
            app_wf(old(self)@),
        ensures
            app_wf(final(self)@),
            final(self)@ == after_toggle_brew(old(self)@),
    {
        proof {
            reveal(after_toggle_brew);
        }
        let ghost v0 = self@;
        let vis = self.visible_brew();
        proof {
            self.lemma_view();
        }
        if self.brew_idx < vis.len() {
            proof {
                crate::app::lemma_shown_brew_in_range(v0);
            }
            let i = vis[self.brew_idx];
            if self.brew_added(i) {
                self.drop_brew(i);
            } else {
                self.take_brew(i);
            }
        }
    }

    fn open_prompt(&mut self, cask: bool)
        requires
            app_wf(old(self)@),
        ensures
            app_wf(final(self)@),
            final(self)@ == prompt_opened(old(self)@, cask),
    {
        proof {
            reveal(prompt_opened);
        }
        let p = if cask {
            Prompt {
                label: "Add custom cask (brew install --cask)".to_owned(),
                input: String::new(),
                kind: PromptKind::CustomCask,
            }
        } else {
            Prompt {
                label: "Add custom formula (brew install)".to_owned(),
                input: String::new(),
                kind: PromptKind::CustomFormula,
            }
        };
        self.set_prompt(Some(p));
    }

    fn start_brew_search(&mut self)
        requires
            app_wf(old(self)@),
        ensures
            app_wf(final(self)@),
            final(self)@ == brew_search_started(old(self)@),
    {
        proof {
            reveal(brew_search_started);
        }
        self.set_brew_searching(true);
        self.set_status("Search Homebrew: type to filter · Esc clears".to_owned());
    }

    fn mark_refreshing(&mut self)
        requires
            app_wf(old(self)@),
        ensures
            app_wf(final(self)@),
            final(self)@ == refreshing(old(self)@),
    {
        proof {
            reveal(refreshing);
        }
        self.set_status("Refreshing from formulae.brew.sh…".to_owned());
    }

    fn clear_brew_search(&mut self)
        requires
            app_wf(old(self)@),
        ensures
            app_wf(final(self)@),
            final(self)@ == brew_search_cleared(old(self)@),
    {
        proof {
            reveal(brew_search_cleared);
        }
        self.set_brew_query(String::new());
        self.set_brew_searching(false);
        self.set_brew_idx(0);
    }

    fn keep_brew_search(&mut self)
        requires
            app_wf(old(self)@),
        ensures
            app_wf(final(self)@),
            final(self)@ == brew_search_kept(old(self)@),
    {
        proof {
            reveal(brew_search_kept);
        }
        self.set_brew_searching(false);
    }

    fn pop_brew_query(&mut self)
        requires
            app_wf(old(self)@),
        ensures
            app_wf(final(self)@),
            final(self)@ == brew_query_popped(old(self)@),
    {
        proof {
            reveal(brew_query_popped);
            self.lemma_view();
        }
        let mut q = self.brew_query.clone();
        pop_char(&mut q);
        self.set_brew_query(q);
        self.set_brew_idx(0);
    }

    fn push_brew_query(&mut self, c: char)
        requires
            app_wf(old(self)@),
        ensures
            app_wf(final(self)@),
            final(self)@ == brew_query_pushed(old(self)@, c),
    {
        proof {
            reveal(brew_query_pushed);
            self.lemma_view();
        }
        let mut q = self.brew_query.clone();
        push_char(&mut q, c);
        self.set_brew_query(q);
        self.set_brew_idx(0);
    }

    fn close_prompt(&mut self)
        requires
            app_wf(old(self)@),
        ensures
            app_wf(final(self)@),
            final(self)@ == prompt_closed(old(self)@),
    {
        proof {
            reveal(prompt_closed);
        }
        self.set_prompt(None);
    }

    fn prompt_enter(&mut self)
        requires
            app_wf(old(self)@),
            old(self)@.prompt is Some,
        ensures
            app_wf(final(self)@),
            final(self)@ == after_prompt_enter(old(self)@, old(self)@.prompt->0),
    {
        proof {
            reveal(after_prompt_enter);
        }
        let taken = self.take_prompt();
        let (name, kind) = match taken {
            Some(p) => (trim_str(p.input.as_str()).to_owned(), p.kind),
            None => (String::new(), PromptKind::CustomFormula),
        };
        if name.unicode_len() == 0 {
            return ;
        }
        let cask = kind == PromptKind::CustomCask;
        let s = if self.sel_has_custom(name.as_str(), cask) {
            cat2(name.as_str(), " already added")
        } else {
            let mut s = "Added custom ".to_owned();
            s.append(
                if cask {
                    "cask"
                } else {
                    "formula"
                },
            );
            s.append(" ");
            s.append(name.as_str());
            s
        };
        let c = Custom { name, cask };
        self.add_custom_pkg(&c);
        self.set_status(s);
    }

    fn prompt_pop(&mut self)
        requires
            app_wf(old(self)@),
            old(self)@.prompt is Some,
        ensures
            app_wf(final(self)@),
            final(self)@ == prompt_popped(old(self)@, old(self)@.prompt->0),
    {
        proof {
            reveal(prompt_popped);
        }
        let taken = self.take_prompt();
        match taken {
            Some(p) => {
                let mut input = p.input;
                pop_char(&mut input);
                self.set_prompt(Some(Prompt { label: p.label, input, kind: p.kind }));
            },
            None => {},
        }
    }

    fn prompt_push(&mut self, c: char)
        requires
            app_wf(old(self)@),
            old(self)@.prompt is Some,
        ensures
            app_wf(final(self)@),
            final(self)@ == prompt_pushed(old(self)@, old(self)@.prompt->0, c),
    {
        proof {
            reveal(prompt_pushed);
        }
        let taken = self.take_prompt();
        match taken {
            Some(p) => {
                let mut input = p.input;
                push_char(&mut input, c);
                self.set_prompt(Some(Prompt { label: p.label, input, kind: p.kind }));
            },
            None => {},
        }
    }

    pub(crate) fn move_theme(&mut self, fwd: bool)
        requires
            app_wf(old(self)@),
        ensures
            app_wf(final(self)@),
            final(self)@ == theme_moved(old(self)@, fwd),
    {
        proof {
            reveal(theme_moved);
            self.lemma_view();
        }
        let i = wrap_step(self.theme_idx, fwd, self.themes.len());
        self.set_theme_idx(i);
    }

    pub(crate) fn apply_theme(&mut self)
        requires
            app_wf(old(self)@),
        ensures
            app_wf(final(self)@),
            final(self)@ == after_apply_theme(old(self)@),
    {
        proof {
            reveal(after_apply_theme);
            self.lemma_view();
        }
        let id = self.themes[self.theme_idx].id.clone();
        let s = cat2("Theme: ", self.themes[self.theme_idx].title.as_str());
        self.set_sel_theme(id);
        self.set_status(s);
    }

    pub(crate) fn move_option(&mut self, fwd: bool)
        requires
            app_wf(old(self)@),
        ensures
            app_wf(final(self)@),
            final(self)@ == option_moved(old(self)@, fwd),
    {
        proof {
            reveal(option_moved);
            self.lemma_view();
        }
        let i = wrap_step(self.option_idx, fwd, 5);
        self.set_option_idx(i);
    }

    pub(crate) fn flip_option(&mut self)
        requires
            app_wf(old(self)@),
        ensures
            app_wf(final(self)@),
            final(self)@ == after_flip_option(old(self)@),
    {
        proof {
            reveal(after_flip_option);
            self.lemma_view();
        }
        let t = flipped(self.sel.toggles, self.option_idx);
        self.set_sel_toggles(t);
    }

    fn ask_install(&mut self, dry: bool)
        requires
            app_wf(old(self)@),
        ensures
            app_wf(final(self)@),
            final(self)@ == install_asked(old(self)@, dry),
    {
        proof {
            reveal(install_asked);
        }
        if dry {
            self.set_dryrun_requested(true);
        } else {
            self.set_install_requested(true);
        }
    }

    /// The selection start entry `i` seeds; `None` for "keep current".
    fn seed_for(&self, i: usize) -> (r: Option<Selection>)
        requires
            app_wf(self@),
            i < entries(self@).len(),
        ensures
            match r {
                Some(s) => s@ == seeded(self@, entries(self@)[i as int]),
                None => seeded(self@, entries(self@)[i as int]) == self@.sel,
            },
    {
        proof {
            self.lemma_view();
        }
        let es = self.start_entries();
        match es[i] {
            StartEntry::Flavour(j) => {
                assert(es@[i as int] == StartEntry::Flavour(i));
                Some(Selection::from_flavour(&self.catalog, &self.flavours[j]))
            },
            StartEntry::Custom => Some(Selection::from_defaults(&self.catalog)),
            StartEntry::KeepCurrent => None,
        }
    }

    /// Enter the picker with start entry `i`'s selection.
    pub(crate) fn choose_entry(&mut self, i: usize)
        requires
            app_wf(old(self)@),
            i < entries(old(self)@).len(),
        ensures
            app_wf(final(self)@),
            final(self)@ == after_choose(old(self)@, i as int),
    {
        proof {
            reveal(after_choose);
        }
        let s = self.seed_for(i);
        match s {
            Some(s) => {
                self.set_sel(s);
            },
            None => {},
        }
        proof {
            self.lemma_view();
        }
        let t = theme_index(&self.themes, self.sel.theme.as_str());
        self.set_theme_idx(t);
        self.set_screen(Screen::Picker);
        self.set_tab(Tab::Packages);
    }

    pub(crate) fn move_start(&mut self, fwd: bool)
        requires
            app_wf(old(self)@),
        ensures
            app_wf(final(self)@),
            final(self)@ == start_moved(old(self)@, fwd),
    {
        proof {
            reveal(start_moved);
            self.lemma_view();
        }
        let n = self.start_entries().len();
        let i = wrap_step(self.start_idx, fwd, n);
        self.set_start_idx(i);
    }

    fn choose_start(&mut self)
        requires
            app_wf(old(self)@),
        ensures
            app_wf(final(self)@),
            final(self)@ == start_chosen(old(self)@),
    {
        proof {
            reveal(start_chosen);
            self.lemma_view();
        }
        let n = self.start_entries().len();
        let i = self.start_idx;
        if i < n {
            self.choose_entry(i);
        }
    }

    fn quit(&mut self)
        requires
            app_wf(old(self)@),
        ensures
            app_wf(final(self)@),
            final(self)@ == quitting(old(self)@),
    {
        proof {
            reveal(quitting);
        }
        self.set_should_quit(true);
    }

    pub(crate) fn help(&mut self, on: bool)
        requires
            app_wf(old(self)@),
        ensures
            app_wf(final(self)@),
            final(self)@ == with_help(old(self)@, on),
    {
        proof {
            reveal(with_help);
        }
        self.set_show_help(on);
    }

    pub(crate) fn switch_tab(&mut self, t: Tab)
        requires
            app_wf(old(self)@),
        ensures
            app_wf(final(self)@),
            final(self)@ == tab_switched(old(self)@, t),
    {
        proof {
            reveal(tab_switched);
        }
        self.set_tab(t);
    }

    fn back_to_start(&mut self)
        requires
            app_wf(old(self)@),
        ensures
            app_wf(final(self)@),
            final(self)@ == to_start(old(self)@),
    {
        proof {
            reveal(to_start);
        }
        self.set_screen(Screen::Start);
    }

    // ---- keys -----------------------------------------------------------------

    /// Returns whether the key was one the search takes.
    fn on_search_key(&mut self, key: Key) -> (r: bool)
        requires
            app_wf(old(self)@),
        ensures
            app_wf(final(self)@),
            match search_key(old(self)@, key) {
                Some(w) => r && final(self)@ == w,
                None => !r && final(self)@ == old(self)@,
            },
    {
        proof {
            reveal(search_key);
        }
        match key {
            Key::Esc => {
                self.clear_search();
                true
            },
            Key::Enter => {
                self.keep_search();
                true
            },
            Key::Backspace => {
                self.pop_query();
                true
            },
            Key::Up => {
                self.move_cursor(false);
                true
            },
            Key::Down => {
                self.move_cursor(true);
                true
            },
            Key::Char(c) => {
                if c == ' ' {
                    self.toggle_current_item();
                } else {
                    self.push_query(c);
                }
                true
            },
            _ => false,
        }
    }

    fn on_packages_key(&mut self, key: Key)
        requires
            app_wf(old(self)@),
        ensures
            app_wf(final(self)@),
            final(self)@ == packages_key(old(self)@, key),
    {
        proof {
            reveal(packages_key);
        }
        match key {
            Key::Char(c) => {
                if c == '/' {
                    self.start_search();
                } else if c == 'h' {
                    self.focus(Pane::Categories);
                } else if c == 'l' {
                    self.focus(Pane::Items);
                } else if c == 'k' {
                    self.move_cursor(false);
                } else if c == 'j' {
                    self.move_cursor(true);
                } else if c == ' ' {
                    self.enter_items();
                } else if c == 'a' {
                    self.set_visible(true);
                } else if c == 'n' {
                    self.set_visible(false);
                }
            },
            Key::Left => {
                self.focus(Pane::Categories);
            },
            Key::Right => {
                self.focus(Pane::Items);
            },
            Key::Up => {
                self.move_cursor(false);
            },
            Key::Down => {
                self.move_cursor(true);
            },
            Key::Enter => {
                self.enter_items();
            },
            _ => {},
        }
    }

    fn on_browse_key(&mut self, key: Key) -> (e: Effect)
        requires
            app_wf(old(self)@),
        ensures
            app_wf(final(self)@),
            (final(self)@, e) == browse_key(old(self)@, key),
    {
        proof {
            reveal(browse_key);
        }
        match key {
            Key::Char(c) => {
                if c == '/' {
                    self.start_brew_search();
                } else if c == 'k' {
                    self.move_brew(false);
                } else if c == 'j' {
                    self.move_brew(true);
                } else if c == ' ' || c == 'a' {
                    self.toggle_current_brew();
                } else if c == 'c' {
                    self.open_prompt(false);
                } else if c == 'C' {
                    self.open_prompt(true);
                } else if c == 'r' {
                    self.mark_refreshing();
                    return Effect::Refresh;
                }
                Effect::Nothing
            },
            Key::Up => {
                self.move_brew(false);
                Effect::Nothing
            },
            Key::Down => {
                self.move_brew(true);
                Effect::Nothing
            },
            Key::Enter => {
                self.toggle_current_brew();
                Effect::Nothing
            },
            _ => Effect::Nothing,
        }
    }

    /// Returns whether the key was one the search takes.
    fn on_brew_search_key(&mut self, key: Key) -> (r: bool)
        requires
            app_wf(old(self)@),
        ensures
            app_wf(final(self)@),
            match brew_search_key(old(self)@, key) {
                Some(w) => r && final(self)@ == w,
                None => !r && final(self)@ == old(self)@,
            },
    {
        proof {
            reveal(brew_search_key);
        }
        match key {
            Key::Esc => {
                self.clear_brew_search();
                true
            },
            Key::Enter => {
                self.keep_brew_search();
                true
            },
            Key::Backspace => {
                self.pop_brew_query();
                true
            },
            Key::Up => {
                self.move_brew(false);
                true
            },
            Key::Down => {
                self.move_brew(true);
                true
            },
            Key::Char(c) => {
                self.push_brew_query(c);
                true
            },
            _ => false,
        }
    }

    fn on_prompt_key(&mut self, key: Key)
        requires
            app_wf(old(self)@),
            old(self)@.prompt is Some,
        ensures
            app_wf(final(self)@),
            final(self)@ == prompt_key(old(self)@, old(self)@.prompt->0, key),
    {
        proof {
            reveal(prompt_key);
        }
        match key {
            Key::Esc => {
                self.close_prompt();
            },
            Key::Enter => {
                self.prompt_enter();
            },
            Key::Backspace => {
                self.prompt_pop();
            },
            Key::Char(c) => {
                self.prompt_push(c);
            },
            _ => {},
        }
    }

    fn on_theme_key(&mut self, key: Key)
        requires
            app_wf(old(self)@),
        ensures
            app_wf(final(self)@),
            final(self)@ == theme_key(old(self)@, key),
    {
        proof {
            reveal(theme_key);
        }
        match key {
            Key::Char(c) => {
                if c == 'k' {
                    self.move_theme(false);
                } else if c == 'j' {
                    self.move_theme(true);
                } else if c == ' ' {
                    self.apply_theme();
                }
            },
            Key::Up => {
                self.move_theme(false);
            },
            Key::Down => {
                self.move_theme(true);
            },
            Key::Enter => {
                self.apply_theme();
            },
            _ => {},
        }
    }

    fn on_options_key(&mut self, key: Key)
        requires
            app_wf(old(self)@),
        ensures
            app_wf(final(self)@),
            final(self)@ == options_key(old(self)@, key),
    {
        proof {
            reveal(options_key);
        }
        match key {
            Key::Char(c) => {
                if c == 'k' {
                    self.move_option(false);
                } else if c == 'j' {
                    self.move_option(true);
                } else if c == ' ' {
                    self.flip_option();
                }
            },
            Key::Up => {
                self.move_option(false);
            },
            Key::Down => {
                self.move_option(true);
            },
            Key::Enter => {
                self.flip_option();
            },
            _ => {},
        }
    }

    fn on_save_key(&mut self, key: Key) -> (e: Effect)
        requires
            app_wf(old(self)@),
        ensures
            app_wf(final(self)@),
            (final(self)@, e) == save_key(old(self)@, key),
    {
        proof {
            reveal(save_key);
            self.lemma_view();
        }
        let first_save = if self.saved {
            Effect::Nothing
        } else {
            Effect::Save
        };
        match key {
            Key::Char(c) => {
                if c == 's' {
                    Effect::Save
                } else if c == 'i' {
                    self.ask_install(false);
                    first_save
                } else if c == 'd' {
                    self.ask_install(true);
                    first_save
                } else {
                    Effect::Nothing
                }
            },
            Key::Enter => Effect::Save,
            _ => Effect::Nothing,
        }
    }

    fn on_start_key(&mut self, key: Key)
        requires
            app_wf(old(self)@),
        ensures
            app_wf(final(self)@),
            final(self)@ == start_key(old(self)@, key),
    {
        proof {
            reveal(start_key);
        }
        match key {
            Key::Char(c) => {
                if c == 'k' {
                    self.move_start(false);
                } else if c == 'j' {
                    self.move_start(true);
                } else if c == ' ' {
                    self.choose_start();
                } else if c == 'q' {
                    self.quit();
                } else if c == '?' {
                    self.help(true);
                }
            },
            Key::Up => {
                self.move_start(false);
            },
            Key::Down => {
                self.move_start(true);
            },
            Key::Enter => {
                self.choose_start();
            },
            Key::Esc => {
                self.quit();
            },
            _ => {},
        }
    }

    fn on_tab_key(&mut self, key: Key) -> (e: Effect)
        requires
            app_wf(old(self)@),
        ensures
            app_wf(final(self)@),
            (final(self)@, e) == tab_key(old(self)@, key),
    {
        proof {
            reveal(tab_key);
            self.lemma_view();
        }
        match self.tab {
            Tab::Packages => {
                self.on_packages_key(key);
                Effect::Nothing
            },
            Tab::Browse => self.on_browse_key(key),
            Tab::Theme => {
                self.on_theme_key(key);
                Effect::Nothing
            },
            Tab::Options => {
                self.on_options_key(key);
                Effect::Nothing
            },
            Tab::Save => self.on_save_key(key),
        }
    }

    fn on_picker_key(&mut self, key: Key) -> (e: Effect)
        requires
            app_wf(old(self)@),
        ensures
            app_wf(final(self)@),
            (final(self)@, e) == picker_key(old(self)@, key),
    {
        proof {
            reveal(picker_key);
            self.lemma_view();
        }
        let next = Tab::from_index(self.tab.index() + 1);
        let prev = prev_of(self.tab);
        match key {
            Key::Esc => {
                self.quit();
                Effect::Nothing
            },
            Key::Tab => {
                self.switch_tab(next);
                Effect::Nothing
            },
            Key::BackTab => {
                self.switch_tab(prev);
                Effect::Nothing
            },
            Key::CtrlS => {
                self.switch_tab(Tab::Save);
                Effect::Save
            },
            Key::Char(c) => {
                if c == 'q' {
                    self.quit();
                    Effect::Nothing
                } else if c == '?' {
                    self.help(true);
                    Effect::Nothing
                } else if c == 'b' {
                    self.back_to_start();
                    Effect::Nothing
                } else if c == ']' {
                    self.switch_tab(next);
                    Effect::Nothing
                } else if c == '[' {
                    self.switch_tab(prev);
                    Effect::Nothing
                } else {
                    match digit(c) {
                        Some(t) => {
                            self.switch_tab(t);
                            Effect::Nothing
                        },
                        None => self.on_tab_key(key),
                    }
                }
            },
            _ => self.on_tab_key(key),
        }
    }

    /// Handle a key: the picker afterwards is [`key_step`]'s, and the
    /// returned [`Effect`] is the work the caller must then do.
    pub fn on_key(&mut self, key: Key) -> (e: Effect)
        requires
            old(self).wf(),
        ensures
            final(self).wf(),
            (final(self)@, e) == key_step(old(self)@, key),
    {
        proof {
            reveal(key_step);
            self.lemma_view();
        }
        if self.show_help {
            self.help(false);
            return Effect::Nothing;
        }
        if self.prompt.is_some() {
            self.on_prompt_key(key);
            return Effect::Nothing;
        }
        if self.screen == Screen::Start {
            self.on_start_key(key);
            return Effect::Nothing;
        }
        if self.tab == Tab::Packages && self.searching {
            if self.on_search_key(key) {
                return Effect::Nothing;
            }
        }
        proof {
            self.lemma_view();
        }
        if self.tab == Tab::Browse && self.brew_searching {
            if self.on_brew_search_key(key) {
                return Effect::Nothing;
            }
        }
        self.on_picker_key(key)
    }
}

} // verus!
