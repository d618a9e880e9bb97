//! How a click or a wheel turn changes the picker, using the geometry the
//! drawing layer recorded in [`App::ui`].
use crate::app::{app_wf, entries, shown, shown_brew, App, AppView};
use crate::keys::{
    lemma_step_round_trip, lemma_steps_keep_data, same_data, after_apply_theme, after_choose, after_flip_option, after_move, after_move_brew,
    after_toggle_brew, after_toggle_item, focused, item_moved, option_moved, step_index, start_moved, tab_switched,
    theme_moved, with_help,
};
use crate::picker::{cat_choices, inside, row_at, tab_at, Mouse, Pane, Screen, Slot, Tab};
use vstd::prelude::*;

verus! {

/// The list row a click at `(col, row)` hits in `s`, if it is inside the
/// list's area and one of its `n` rows.
pub open spec fn row_hit(s: Slot, col: u16, row: u16, n: int) -> Option<int> {
    match row_at(s, row) {
        Some(i) => if inside(s.rect, col, row) && i < n {
            Some(i)
        } else {
            None
        },
        None => None,
    }
}

/// The first of the first `n` tab spans that holds column `col`.
pub open spec fn span_hit(spans: Seq<(u16, u16)>, col: u16, n: int) -> Option<int>
    decreases n,
{
    if n <= 0 {
        None
    } else {
        match span_hit(spans, col, n - 1) {
            Some(i) => Some(i),
            None => if spans[n - 1].0 <= col && col < spans[n - 1].1 {
                Some(n - 1)
            } else {
                None
            },
        }
    }
}

/// Category row `i` clicked: chosen and focused, the item cursor on top.
#[verifier::opaque]
pub open spec fn category_clicked(v: AppView, i: int) -> AppView {
    AppView { cat_idx: i as usize, item_idx: 0, pane: Pane::Categories, ..v }
}

/// Item row `i` clicked: focused, highlighted and flipped.
#[verifier::opaque]
pub open spec fn item_clicked(v: AppView, i: int) -> AppView {
    after_toggle_item(AppView { pane: Pane::Items, item_idx: i as usize, ..v })
}

/// Browse row `i` clicked: highlighted, then added or taken off.
#[verifier::opaque]
pub open spec fn brew_clicked(v: AppView, i: int) -> AppView {
    after_toggle_brew(AppView { brew_idx: i as usize, ..v })
}

/// Theme row `i` clicked: highlighted and applied.
#[verifier::opaque]
pub open spec fn theme_clicked(v: AppView, i: int) -> AppView {
    after_apply_theme(AppView { theme_idx: i as usize, ..v })
}

/// Options row `i` clicked: highlighted and flipped.
#[verifier::opaque]
pub open spec fn option_clicked(v: AppView, i: int) -> AppView {
    after_flip_option(AppView { option_idx: i as usize, ..v })
}

/// Start entry `i` clicked: highlighted and chosen.
#[verifier::opaque]
pub open spec fn start_clicked(v: AppView, i: int) -> AppView {
    after_choose(AppView { start_idx: i as usize, ..v }, i)
}

/// A click on the picker screen: a tab title switches to it; else the row
/// under the pointer of the current tab's list.
#[verifier::opaque]
pub open spec fn clicked(v: AppView, col: u16, row: u16) -> AppView {
    if inside(v.ui.tabs_rect, col, row) {
        match span_hit(v.ui.tab_spans, col, v.ui.tab_spans.len() as int) {
            Some(i) => tab_switched(v, tab_at(i)),
            None => v,
        }
    } else {
        match v.tab {
            Tab::Packages => {
                let cat = row_hit(v.ui.cat, col, row, cat_choices(v.catalog).len() as int);
                let item = row_hit(v.ui.items, col, row, shown(v).len() as int);
                if v.query.len() == 0 && cat is Some {
                    category_clicked(v, cat->0)
                } else if item is Some {
                    item_clicked(v, item->0)
                } else {
                    v
                }
            },
            Tab::Browse => match row_hit(v.ui.brew, col, row, shown_brew(v).len() as int) {
                Some(i) => brew_clicked(v, i),
                None => v,
            },
            Tab::Theme => match row_hit(v.ui.theme, col, row, v.themes.len() as int) {
                Some(i) => theme_clicked(v, i),
                None => v,
            },
            Tab::Options => match row_hit(v.ui.options, col, row, 5) {
                Some(i) => option_clicked(v, i),
                None => v,
            },
            Tab::Save => v,
        }
    }
}

/// A wheel turn (`down` or up) on the picker screen: over the category list
/// (with nothing searched) it moves the category cursor, elsewhere the
/// current tab's cursor.
#[verifier::opaque]
pub open spec fn scrolled(v: AppView, down: bool, col: u16, row: u16) -> AppView {
    if v.tab == Tab::Packages && inside(v.ui.cat.rect, col, row) && v.query.len() == 0 {
        after_move(focused(v, Pane::Categories), down)
    } else {
        match v.tab {
            Tab::Packages => after_move(focused(v, Pane::Items), down),
            Tab::Browse => after_move_brew(v, down),
            Tab::Theme => theme_moved(v, down),
            Tab::Options => option_moved(v, down),
            Tab::Save => v,
        }
    }
}

/// A mouse event on the presets screen: the wheel moves the cursor, a click
/// on an entry chooses it.
#[verifier::opaque]
pub open spec fn start_mouse(v: AppView, m: Mouse) -> AppView {
    match m {
        Mouse::Scroll(down, _, _) => start_moved(v, down),
        Mouse::Down(col, row) => match row_hit(v.ui.start, col, row, entries(v).len() as int) {
            Some(i) => start_clicked(v, i),
            None => v,
        },
    }
}

/// What a mouse event does to the picker. The help overlay takes a click to
/// close (and ignores the wheel); an open prompt ignores the mouse.
#[verifier::opaque]
pub open spec fn mouse_step(v: AppView, m: Mouse) -> AppView {
    if v.show_help {
        if m is Down {
            with_help(v, false)
        } else {
            v
        }
    } else if v.prompt is Some {
        v
    } else if v.screen == Screen::Start {
        start_mouse(v, m)
    } else {
        match m {
            Mouse::Scroll(down, col, row) => scrolled(v, down, col, row),
            Mouse::Down(col, row) => clicked(v, col, row),
        }
    }
}

/// No mouse event changes the catalog, the themes, the presets, where the
/// conf goes, the recorded geometry or the Homebrew list.
pub proof fn lemma_mouse_keeps_data(v: AppView, m: Mouse)
    ensures
        same_data(v, mouse_step(v, m)),
{
    lemma_steps_keep_data(v);
    let p = focused(v, Pane::Categories);
    let q = focused(v, Pane::Items);
    lemma_steps_keep_data(p);
    lemma_steps_keep_data(q);
    assert(same_data(v, scrolled_any(v, m))) by {
        reveal(scrolled);
    }
    assert forall|i: int| same_data(v, #[trigger] category_clicked(v, i)) by {
        reveal(category_clicked);
    }
    assert forall|i: int| same_data(v, #[trigger] item_clicked(v, i)) by {
        reveal(item_clicked);
        lemma_steps_keep_data(AppView { pane: Pane::Items, item_idx: i as usize, ..v });
    }
    assert forall|i: int| same_data(v, #[trigger] brew_clicked(v, i)) by {
        reveal(brew_clicked);
        lemma_steps_keep_data(AppView { brew_idx: i as usize, ..v });
    }
    assert forall|i: int| same_data(v, #[trigger] theme_clicked(v, i)) by {
        reveal(theme_clicked);
        lemma_steps_keep_data(AppView { theme_idx: i as usize, ..v });
    }
    assert forall|i: int| same_data(v, #[trigger] option_clicked(v, i)) by {
        reveal(option_clicked);
        lemma_steps_keep_data(AppView { option_idx: i as usize, ..v });
    }
    assert forall|i: int| same_data(v, #[trigger] start_clicked(v, i)) by {
        reveal(start_clicked);
        lemma_steps_keep_data(AppView { start_idx: i as usize, ..v });
    }
    assert(same_data(v, clicked_any(v, m))) by {
        reveal(clicked);
    }
    assert(same_data(v, start_mouse(v, m))) by {
        reveal(start_mouse);
    }
    reveal(mouse_step);
}

/// On the Packages tab, with nothing open over it, a wheel turn away from
/// the category list (or while something is searched) focuses the items and
/// moves their cursor one step round the listed items; turning the wheel the
/// other way at the same place puts the cursor back where it was.
pub proof fn lemma_wheel_items_round_trip(v: AppView, down: bool, col: u16, row: u16)
    requires
        app_wf(v),
        !v.show_help,
        v.prompt is None,
        v.screen == Screen::Picker,
        v.tab == Tab::Packages,
        !inside(v.ui.cat.rect, col, row) || v.query.len() > 0,
        v.item_idx < shown(v).len() <= usize::MAX,
    ensures
        mouse_step(v, Mouse::Scroll(down, col, row)) == (AppView {
            pane: Pane::Items,
            item_idx: step_index(v.item_idx, down, shown(v).len() as int),
            ..v
        }),
        mouse_step(mouse_step(v, Mouse::Scroll(down, col, row)), Mouse::Scroll(!down, col, row))
            == (AppView { pane: Pane::Items, ..v }),
{
    let n = shown(v).len() as int;
    let f = focused(v, Pane::Items);
    let w = AppView { pane: Pane::Items, item_idx: step_index(v.item_idx, down, n), ..v };
    let g = focused(w, Pane::Items);
    assert(f == AppView { pane: Pane::Items, ..v }) by {
        reveal(focused);
    }
    assert(g == w) by {
        reveal(focused);
    }
    assert(shown(f) == shown(v) && shown(w) == shown(v)) by {
        reveal(shown);
    }
    assert(after_move(f, down) == w) by {
        reveal(after_move);
        reveal(item_moved);
    }
    assert(mouse_step(v, Mouse::Scroll(down, col, row)) == w) by {
        reveal(mouse_step);
        reveal(scrolled);
    }
    lemma_step_round_trip(v.item_idx, n, down);
    assert(after_move(g, !down) == (AppView { pane: Pane::Items, ..v })) by {
        reveal(after_move);
        reveal(item_moved);
    }
    assert(mouse_step(w, Mouse::Scroll(!down, col, row)) == (AppView { pane: Pane::Items, ..v }))
        by {
        reveal(mouse_step);
        reveal(scrolled);
    }
}

/// On the presets screen, with nothing open over it, a wheel turn moves the
/// presets cursor one step round the entries, wherever it is made; turning the
/// wheel the other way puts the cursor back and leaves the picker as it was.
pub proof fn lemma_wheel_start_round_trip(v: AppView, down: bool, col: u16, row: u16)
    requires
        app_wf(v),
        !v.show_help,
        v.prompt is None,
        v.screen == Screen::Start,
        v.start_idx < entries(v).len(),
    ensures
        mouse_step(v, Mouse::Scroll(down, col, row)) == (AppView {
            start_idx: step_index(v.start_idx, down, entries(v).len() as int),
            ..v
        }),
        mouse_step(mouse_step(v, Mouse::Scroll(down, col, row)), Mouse::Scroll(!down, col, row))
            == v,
{
    let n = entries(v).len() as int;
    let w = AppView { start_idx: step_index(v.start_idx, down, n), ..v };
    assert(mouse_step(v, Mouse::Scroll(down, col, row)) == w) by {
        reveal(mouse_step);
        reveal(start_mouse);
        reveal(start_moved);
    }
    lemma_step_round_trip(v.start_idx, n, down);
    assert(mouse_step(w, Mouse::Scroll(!down, col, row)) == v) by {
        reveal(mouse_step);
        reveal(start_mouse);
        reveal(start_moved);
    }
}

/// The click part of a mouse event, for the lemma on kept data.
spec fn clicked_any(v: AppView, m: Mouse) -> AppView {
    match m {
        Mouse::Down(col, row) => clicked(v, col, row),
        Mouse::Scroll(..) => v,
    }
}

/// The wheel part of a mouse event, for the lemma on kept data.
spec fn scrolled_any(v: AppView, m: Mouse) -> AppView {
    match m {
        Mouse::Scroll(down, col, row) => scrolled(v, down, col, row),
        Mouse::Down(..) => v,
    }
}

pub open spec fn opt_index(o: Option<usize>) -> Option<int> {
    match o {
        Some(i) => Some(i as int),
        None => None,
    }
}

/// The list row a click hits in `s`, among its `n` rows.
fn slot_hit(s: Slot, col: u16, row: u16, n: usize) -> (r: Option<usize>)
    ensures
        opt_index(r) == row_hit(s, col, row, n as int),
{
    match s.index_at(row) {
        Some(i) => {
            if crate::picker::rect_contains(s.rect, col, row) && i < n {
                Some(i)
            } else {
                None
            }
        },
        None => None,
    }
}

/// The first tab span that holds column `col`.
fn find_span(spans: &Vec<(u16, u16)>, col: u16) -> (r: Option<usize>)
    ensures
        opt_index(r) == span_hit(spans@, col, spans@.len() as int),
{
    let n = spans.len();
    let mut i: usize = 0;
    while i < n
        invariant
            n == spans@.len(),
            i <= n,
            span_hit(spans@, col, i as int) is None,
        decreases n - i,
    {
        if spans[i].0 <= col && col < spans[i].1 {
            proof {
                lemma_span_hit_stays(spans@, col, (i + 1) as int, n as int);
            }
            return Some(i);
        }
        i = i + 1;
    }
    None
}

/// Once a span is hit among the first `m`, later spans do not change it.
proof fn lemma_span_hit_stays(spans: Seq<(u16, u16)>, col: u16, m: int, n: int)
    requires
        0 < m <= n,
        span_hit(spans, col, m) is Some,
    ensures
        span_hit(spans, col, n) == span_hit(spans, col, m),
    decreases n - m,
{
    if n > m {
        lemma_span_hit_stays(spans, col, m, n - 1);
    }
}

impl App {
    fn click_category(&mut self, i: usize)
        requires
            app_wf(old(self)@),
        ensures
            app_wf(final(self)@),
            final(self)@ == category_clicked(old(self)@, i as int),
    {
        proof {
            reveal(category_clicked);
        }
        self.set_cat_idx(i);
        self.set_item_idx(0);
        self.set_pane(Pane::Categories);
    }

    fn click_item(&mut self, i: usize)
        requires
            app_wf(old(self)@),
        ensures
            app_wf(final(self)@),
            final(self)@ == item_clicked(old(self)@, i as int),
    {
        proof {
            reveal(item_clicked);
        }
        self.set_pane(Pane::Items);
        self.set_item_idx(i);
        self.toggle_current_item();
    }

    fn click_brew(&mut self, i: usize)
        requires
            app_wf(old(self)@),
        ensures
            app_wf(final(self)@),
            final(self)@ == brew_clicked(old(self)@, i as int),
    {
        proof {
            reveal(brew_clicked);
        }
        self.set_brew_idx(i);
        self.toggle_current_brew();
    }

    fn click_theme(&mut self, i: usize)
        requires
            app_wf(old(self)@),
            i < old(self)@.themes.len(),
        ensures
            app_wf(final(self)@),
            final(self)@ == theme_clicked(old(self)@, i as int),
    {
        proof {
            reveal(theme_clicked);
        }
        self.set_theme_idx(i);
        self.apply_theme();
    }

    fn click_option(&mut self, i: usize)
        requires
            app_wf(old(self)@),
        ensures
            app_wf(final(self)@),
            final(self)@ == option_clicked(old(self)@, i as int),
    {
        proof {
            reveal(option_clicked);
        }
        self.set_option_idx(i);
        self.flip_option();
    }

    fn click_start(&mut self, i: usize)
        requires
            app_wf(old(self)@),
            i < entries(old(self)@).len(),
        ensures
            app_wf(final(self)@),
            final(self)@ == start_clicked(old(self)@, i as int),
    {
        proof {
            reveal(start_clicked);
        }
        self.set_start_idx(i);
        self.choose_entry(i);
    }

    fn click_packages(&mut self, col: u16, row: u16)
        requires
            app_wf(old(self)@),
        ensures
            app_wf(final(self)@),
            ({
                let v = old(self)@;
                let cat = row_hit(v.ui.cat, col, row, cat_choices(v.catalog).len() as int);
                let item = row_hit(v.ui.items, col, row, shown(v).len() as int);
                final(self)@ == (if v.query.len() == 0 && cat is Some {
                    category_clicked(v, cat->0)
                } else if item is Some {
                    item_clicked(v, item->0)
                } else {
                    v
                })
            }),
    {
        proof {
            self.lemma_view();
        }
        let ncat = self.categories().len();
        let cat = slot_hit(self.ui.cat, col, row, ncat);
        let nvis = self.visible_items().len();
        proof {
            self.lemma_view();
        }
        let item = slot_hit(self.ui.items, col, row, nvis);
        if self.query.unicode_len() == 0 && cat.is_some() {
            match cat {
                Some(i) => self.click_category(i),
                None => {},
            }
        } else {
            match item {
                Some(i) => self.click_item(i),
                None => {},
            }
        }
    }

    fn click(&mut self, col: u16, row: u16)
        requires
            app_wf(old(self)@),
        ensures
            app_wf(final(self)@),
            final(self)@ == clicked(old(self)@, col, row),
    {
        proof {
            reveal(clicked);
            self.lemma_view();
        }
        if crate::picker::rect_contains(self.ui.tabs_rect, col, row) {
            match find_span(&self.ui.tab_spans, col) {
                Some(i) => self.switch_tab(Tab::from_index(i)),
                None => {},
            }
            return ;
        }
        match self.tab {
            Tab::Packages => self.click_packages(col, row),
            Tab::Browse => {
                let n = self.visible_brew().len();
                proof {
                    self.lemma_view();
                }
                match slot_hit(self.ui.brew, col, row, n) {
                    Some(i) => self.click_brew(i),
                    None => {},
                }
            },
            Tab::Theme => {
                match slot_hit(self.ui.theme, col, row, self.themes.len()) {
                    Some(i) => self.click_theme(i),
                    None => {},
                }
            },
            Tab::Options => {
                match slot_hit(self.ui.options, col, row, 5) {
                    Some(i) => self.click_option(i),
                    None => {},
                }
            },
            Tab::Save => {},
        }
    }

    fn scroll_items(&mut self, down: bool, p: Pane)
        requires
            app_wf(old(self)@),
        ensures
            app_wf(final(self)@),
            final(self)@ == after_move(focused(old(self)@, p), down),
    {
        self.focus(p);
        self.move_cursor(down);
    }

    fn scroll(&mut self, down: bool, col: u16, row: u16)
        requires
            app_wf(old(self)@),
        ensures
            app_wf(final(self)@),
            final(self)@ == scrolled(old(self)@, down, col, row),
    {
        proof {
            reveal(scrolled);
            self.lemma_view();
        }
        if self.tab == Tab::Packages && crate::picker::rect_contains(self.ui.cat.rect, col, row)
            && self.query.unicode_len() == 0 {
            self.scroll_items(down, Pane::Categories);
            return ;
        }
        match self.tab {
            Tab::Packages => self.scroll_items(down, Pane::Items),
            Tab::Browse => self.move_brew(down),
            Tab::Theme => self.move_theme(down),
            Tab::Options => self.move_option(down),
            Tab::Save => {},
        }
    }

    fn on_start_mouse(&mut self, m: Mouse)
        requires
            app_wf(old(self)@),
        ensures
            app_wf(final(self)@),
            final(self)@ == start_mouse(old(self)@, m),
    {
        proof {
            reveal(start_mouse);
            self.lemma_view();
        }
        match m {
            Mouse::Scroll(down, _, _) => self.move_start(down),
            Mouse::Down(col, row) => {
                let n = self.start_entries().len();
                match slot_hit(self.ui.start, col, row, n) {
                    Some(i) => self.click_start(i),
                    None => {},
                }
            },
        }
    }

    /// Handle a mouse event: the picker afterwards is [`mouse_step`]'s.
    pub fn on_mouse(&mut self, m: Mouse)
        requires
            old(self).wf(),
        ensures
            final(self).wf(),
            final(self)@ == mouse_step(old(self)@, m),
    {
        proof {
            reveal(mouse_step);
            self.lemma_view();
        }
        if self.show_help {
            if let Mouse::Down(..) = m {
                self.help(false);
            }
            return ;
        }
        if self.prompt.is_some() {
            return ;
        }
        if self.screen == Screen::Start {
            self.on_start_mouse(m);
            return ;
        }
        match m {
            Mouse::Scroll(down, col, row) => self.scroll(down, col, row),
            Mouse::Down(col, row) => self.click(col, row),
        }
    }
}

} // verus!
