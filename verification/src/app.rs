//! The picker as a whole: what it holds, what it derives from that, and the
//! hand-offs to the outside world (writing the conf, the live Homebrew list,
//! the installer run).
//!
//! Keys and clicks are handled in [`crate::keys`] and [`crate::mouse`]; both
//! are stated over [`AppView`], the picker's contents without its matcher.
use crate::brew::{BrewKind, Package};
use crate::catalog::{title_for, Catalog, Category, Item};
use crate::flavour::Flavour;
use crate::picker::{
    added, browse_positions, cat_choices, chosen, item_hay, item_scores, selectable_ids, visible,
    visible_brew_of, brew_scores, InstallOutcome, Pane, Prompt, PromptKind, Rect, Screen, Slot,
    StartEntry, Tab, UiState, UiView, ui_view, empty_ui,
};
use crate::search::{matches_of, scored_against, search_score, stable_desc, Searcher, haystack};
use crate::selection::{conf_text, custom_list, list_contains, with_custom_list, Custom, Selection, SelectionView, Toggles};
use crate::text::{decimal, push_decimal, push_signed, same_text, signed_decimal};
use crate::theme::Theme;
use vstd::prelude::*;

verus! {

/// A prompt's text, as values.
pub struct PromptView {
    pub label: Seq<char>,
    pub input: Seq<char>,
    pub kind: PromptKind,
}

pub open spec fn prompt_view(p: Option<Prompt>) -> Option<PromptView> {
    match p {
        Some(q) => Some(PromptView { label: q.label@, input: q.input@, kind: q.kind }),
        None => None,
    }
}

pub open spec fn opt_text(o: Option<String>) -> Option<Seq<char>> {
    match o {
        Some(s) => Some(s@),
        None => None,
    }
}

/// Everything the picker holds but its matcher.
pub struct AppView {
    pub catalog: Catalog,
    pub sel: SelectionView,
    pub themes: Seq<Theme>,
    pub flavours: Seq<Flavour>,
    pub conf_path: Seq<char>,
    pub repo_dir: Option<Seq<char>>,
    pub screen: Screen,
    pub start_idx: usize,
    pub had_conf: bool,
    pub tab: Tab,
    pub status: Seq<char>,
    pub show_help: bool,
    pub should_quit: bool,
    pub saved: bool,
    pub ui: UiView,
    pub install_requested: bool,
    pub dryrun_requested: bool,
    pub last_install: Option<InstallOutcome>,
    pub pane: Pane,
    pub cat_idx: usize,
    pub item_idx: usize,
    pub query: Seq<char>,
    pub searching: bool,
    pub brew: Seq<Package>,
    pub brew_idx: usize,
    pub brew_query: Seq<char>,
    pub brew_searching: bool,
    pub prompt: Option<PromptView>,
    pub theme_idx: usize,
    pub option_idx: usize,
}

/// The whole picker.
pub struct App {
    pub catalog: Catalog,
    pub sel: Selection,
    pub themes: Vec<Theme>,
    /// The presets offered on the start screen, in order.
    pub flavours: Vec<Flavour>,
    pub conf_path: String,
    /// Repo root (for `scripts/install.sh`), when known.
    pub repo_dir: Option<String>,
    /// The fuzzy matcher, kept to be reused across searches.
    pub searcher: Searcher,
    pub screen: Screen,
    pub start_idx: usize,
    /// Whether a conf was loaded (offers "keep current" on the start screen).
    pub had_conf: bool,
    pub tab: Tab,
    pub status: String,
    pub show_help: bool,
    pub should_quit: bool,
    pub saved: bool,
    /// Recorded draw geometry, for mouse hit-testing.
    pub ui: UiState,
    /// Set on the Save screen; the event loop runs the install, then clears it.
    pub install_requested: bool,
    pub dryrun_requested: bool,
    pub last_install: Option<InstallOutcome>,
    pub pane: Pane,
    /// 0 = "All", then the selectable categories.
    pub cat_idx: usize,
    /// Index into the currently visible item list.
    pub item_idx: usize,
    pub query: String,
    pub searching: bool,
    pub brew: Vec<Package>,
    pub brew_idx: usize,
    pub brew_query: String,
    pub brew_searching: bool,
    pub prompt: Option<Prompt>,
    pub theme_idx: usize,
    pub option_idx: usize,
}

impl View for App {
    type V = AppView;

    closed spec fn view(&self) -> AppView {
        AppView {
            catalog: self.catalog,
            sel: self.sel@,
            themes: self.themes@,
            flavours: self.flavours@,
            conf_path: self.conf_path@,
            repo_dir: opt_text(self.repo_dir),
            screen: self.screen,
            start_idx: self.start_idx,
            had_conf: self.had_conf,
            tab: self.tab,
            status: self.status@,
            show_help: self.show_help,
            should_quit: self.should_quit,
            saved: self.saved,
            ui: ui_view(self.ui),
            install_requested: self.install_requested,
            dryrun_requested: self.dryrun_requested,
            last_install: self.last_install,
            pane: self.pane,
            cat_idx: self.cat_idx,
            item_idx: self.item_idx,
            query: self.query@,
            searching: self.searching,
            brew: self.brew@,
            brew_idx: self.brew_idx,
            brew_query: self.brew_query@,
            brew_searching: self.brew_searching,
            prompt: prompt_view(self.prompt),
            theme_idx: self.theme_idx,
            option_idx: self.option_idx,
        }
    }
}

/// A picker the handlers can work on: a theme to point at, and room to count
/// the start entries.
pub open spec fn app_wf(v: AppView) -> bool {
    &&& v.themes.len() > 0
    &&& v.theme_idx < v.themes.len()
    &&& v.flavours.len() + 2 <= usize::MAX
}

/// The start screen's entries: each flavour, then "custom", then "keep
/// current" when a conf was loaded.
pub open spec fn start_entries_of(n: int, had_conf: bool) -> Seq<StartEntry> {
    Seq::new(n as nat, |i: int| StartEntry::Flavour(i as usize)) + seq![StartEntry::Custom] + (if had_conf {
        seq![StartEntry::KeepCurrent]
    } else {
        Seq::empty()
    })
}

pub open spec fn entries(v: AppView) -> Seq<StartEntry> {
    start_entries_of(v.flavours.len() as int, v.had_conf)
}

/// Where the theme with id `id` sits among `themes` (its first place), or 0.
pub open spec fn theme_position(themes: Seq<Theme>, id: Seq<char>) -> int {
    if exists|i: int| 0 <= i < themes.len() && #[trigger] themes[i].id@ == id {
        choose|i: int|
            0 <= i < themes.len() && #[trigger] themes[i].id@ == id && forall|j: int|
                0 <= j < i ==> themes[j].id@ != id
    } else {
        0
    }
}

/// The status line a fresh picker shows.
pub open spec fn welcome() -> Seq<char> {
    "Space/click toggles · / searches · mouse works · ? for help"@
}

/// A fresh picker on `screen`: nothing searched, nothing requested, the
/// theme cursor on the selection's theme.
pub open spec fn fresh_view(
    catalog: Catalog,
    sel: SelectionView,
    conf_path: Seq<char>,
    repo_dir: Option<Seq<char>>,
    themes: Seq<Theme>,
    flavours: Seq<Flavour>,
    brew: Seq<Package>,
    screen: Screen,
    had_conf: bool,
) -> AppView {
    AppView {
        catalog,
        sel,
        themes,
        flavours,
        conf_path,
        repo_dir,
        screen,
        start_idx: if had_conf {
            (flavours.len() + 1) as usize
        } else {
            0
        },
        had_conf,
        tab: Tab::Packages,
        status: welcome(),
        show_help: false,
        should_quit: false,
        saved: false,
        ui: empty_ui(),
        install_requested: false,
        dryrun_requested: false,
        last_install: None,
        pane: Pane::Categories,
        cat_idx: 0,
        item_idx: 0,
        query: Seq::empty(),
        searching: false,
        brew,
        brew_idx: 0,
        brew_query: Seq::empty(),
        brew_searching: false,
        prompt: None,
        theme_idx: theme_position(themes, sel.theme) as usize,
        option_idx: 0,
    }
}

/// First place of the theme `id` among `themes`, or 0.
pub fn theme_index(themes: &Vec<Theme>, id: &str) -> (r: usize)
    ensures
        r == theme_position(themes@, id@),
        themes@.len() > 0 ==> r < themes@.len(),
{
    let n = themes.len();
    let mut i: usize = 0;
    while i < n
        invariant
            n == themes@.len(),
            i <= n,
            forall|j: int| 0 <= j < i ==> themes@[j].id@ != id@,
        decreases n - i,
    {
        if same_text(themes[i].id.as_str(), id) {
            proof {
                assert(themes@[i as int].id@ == id@);
                let c = choose|k: int|
                    0 <= k < themes@.len() && #[trigger] themes@[k].id@ == id@ && forall|j: int|
                        0 <= j < k ==> themes@[j].id@ != id@;
                assert(0 <= c < themes@.len() && themes@[c].id@ == id@);
                if c < i {
                    assert(themes@[c].id@ != id@);
                }
                if c > i {
                    assert(themes@[i as int].id@ != id@);
                }
            }
            return i;
        }
        i = i + 1;
    }
    0
}

impl App {
    /// The view's well-formedness, for callers outside the proofs.
    pub open spec fn wf(&self) -> bool {
        app_wf(self@)
    }

    /// A picker on the picker screen (no presets), with the theme cursor on
    /// the selection's theme.
    pub fn with_themes(
        catalog: Catalog,
        sel: Selection,
        conf_path: String,
        repo_dir: Option<String>,
        themes: Vec<Theme>,
        brew: Vec<Package>,
    ) -> (r: App)
        requires
            themes@.len() > 0,
        ensures
            r.wf(),
            r@ == fresh_view(
                catalog,
                sel@,
                conf_path@,
                opt_text(repo_dir),
                themes@,
                Seq::empty(),
                brew@,
                Screen::Picker,
                false,
            ),
    {
        Self::build(catalog, sel, conf_path, repo_dir, themes, Vec::new(), brew, Screen::Picker, false)
    }

    /// A picker that opens on the presets screen. The cursor starts on the
    /// first flavour, or on "keep current" when a conf was loaded.
    pub fn new_full(
        catalog: Catalog,
        sel: Selection,
        conf_path: String,
        repo_dir: Option<String>,
        themes: Vec<Theme>,
        flavours: Vec<Flavour>,
        brew: Vec<Package>,
        had_conf: bool,
    ) -> (r: App)
        requires
            themes@.len() > 0,
            flavours@.len() + 2 <= usize::MAX,
        ensures
            r.wf(),
            r@ == fresh_view(
                catalog,
                sel@,
                conf_path@,
                opt_text(repo_dir),
                themes@,
                flavours@,
                brew@,
                Screen::Start,
                had_conf,
            ),
    {
        Self::build(catalog, sel, conf_path, repo_dir, themes, flavours, brew, Screen::Start, had_conf)
    }

    fn build(
        catalog: Catalog,
        sel: Selection,
        conf_path: String,
        repo_dir: Option<String>,
        themes: Vec<Theme>,
        flavours: Vec<Flavour>,
        brew: Vec<Package>,
        screen: Screen,
        had_conf: bool,
    ) -> (r: App)
        requires
            themes@.len() > 0,
            flavours@.len() + 2 <= usize::MAX,
        ensures
            r.wf(),
            r@ == fresh_view(
                catalog,
                sel@,
                conf_path@,
                opt_text(repo_dir),
                themes@,
                flavours@,
                brew@,
                screen,
                had_conf,
            ),
    {
        let theme_idx = theme_index(&themes, sel.theme.as_str());
        let start_idx = if had_conf {
            flavours.len() + 1
        } else {
            0
        };
        let r = App {
            catalog,
            sel,
            themes,
            flavours,
            conf_path,
            repo_dir,
            searcher: Searcher::new(),
            screen,
            start_idx,
            had_conf,
            tab: Tab::Packages,
            status: "Space/click toggles · / searches · mouse works · ? for help".to_owned(),
            show_help: false,
            should_quit: false,
            saved: false,
            ui: UiState::new(),
            install_requested: false,
            dryrun_requested: false,
            last_install: None,
            pane: Pane::Categories,
            cat_idx: 0,
            item_idx: 0,
            query: String::new(),
            searching: false,
            brew,
            brew_idx: 0,
            brew_query: String::new(),
            brew_searching: false,
            prompt: None,
            theme_idx,
            option_idx: 0,
        };
        proof {
            reveal_strlit("Space/click toggles · / searches · mouse works · ? for help");
        }
        assert(r@ == fresh_view(
            r.catalog,
            r.sel@,
            r.conf_path@,
            opt_text(r.repo_dir),
            r.themes@,
            r.flavours@,
            r.brew@,
            screen,
            had_conf,
        ));
        r
    }

    /// The presets screen's entries, in order.
    pub fn start_entries(&self) -> (r: Vec<StartEntry>)
        requires
            self.flavours@.len() + 2 <= usize::MAX,
        ensures
            r@ == entries(self@),
    {
        let mut r: Vec<StartEntry> = Vec::new();
        let n = self.flavours.len();
        let mut i: usize = 0;
        while i < n
            invariant
                n == self.flavours@.len(),
                i <= n,
                r@ == Seq::new(i as nat, |k: int| StartEntry::Flavour(k as usize)),
            decreases n - i,
        {
            r.push(StartEntry::Flavour(i));
            assert(r@ =~= Seq::new((i + 1) as nat, |k: int| StartEntry::Flavour(k as usize)));
            i = i + 1;
        }
        r.push(StartEntry::Custom);
        if self.had_conf {
            r.push(StartEntry::KeepCurrent);
        }
        assert(r@ =~= entries(self@));
        r
    }
}


// ---- derived lists ----------------------------------------------------------

/// The catalog positions the right pane lists.
#[verifier::opaque]
pub open spec fn shown(v: AppView) -> Seq<usize> {
    visible(v.catalog, v.query, v.cat_idx as int)
}

/// The package positions the browse list shows.
#[verifier::opaque]
pub open spec fn shown_brew(v: AppView) -> Seq<usize> {
    visible_brew_of(v.brew, v.brew_query)
}

/// Whether an item counts toward a sidebar entry: its category for a
/// category entry, any selectable category for "All".
pub open spec fn in_scope(c: Catalog, cat: Option<Seq<char>>, it: Item) -> bool {
    match cat {
        Some(x) => it.category@ == x,
        None => selectable_ids(c).contains(it.category@),
    }
}

pub open spec fn text_views(v: Seq<&str>) -> Seq<Seq<char>> {
    v.map_values(|s: &str| s@)
}

pub open spec fn choice_views(v: Seq<Option<String>>) -> Seq<Option<Seq<char>>> {
    v.map_values(|o: Option<String>| opt_text(o))
}

/// The right pane's title: the chosen category's title, or "All packages".
pub open spec fn pane_title_of(c: Catalog, cat_idx: int) -> Seq<char> {
    match chosen(c, cat_idx) {
        Some(id) => title_for(c.categories@, id),
        None => "All packages"@,
    }
}

/// `i` kept inside a list of `n` entries (0 when there are none).
pub open spec fn clamp(i: usize, n: int) -> usize {
    if n <= 0 {
        0
    } else if i >= n {
        (n - 1) as usize
    } else {
        i
    }
}

/// Both cursors kept inside their lists.
pub open spec fn normalized(v: AppView) -> AppView {
    AppView {
        item_idx: clamp(v.item_idx, shown(v).len() as int),
        brew_idx: clamp(v.brew_idx, shown_brew(v).len() as int),
        ..v
    }
}

/// After `normalize` each cursor is inside its list (or 0 for an empty
/// one), and the lists are the same.
pub proof fn lemma_normalized_in_range(v: AppView)
    ensures
        shown(normalized(v)) == shown(v),
        shown_brew(normalized(v)) == shown_brew(v),
        shown(v).len() > 0 ==> normalized(v).item_idx < shown(v).len(),
        shown(v).len() == 0 ==> normalized(v).item_idx == 0,
        shown_brew(v).len() > 0 ==> normalized(v).brew_idx < shown_brew(v).len(),
        shown_brew(v).len() == 0 ==> normalized(v).brew_idx == 0,
{
    reveal(shown);
    reveal(shown_brew);
}

/// Ids of the selectable categories, in catalog order.
fn selectable_id_list(c: &Catalog) -> (r: Vec<&str>)
    ensures
        text_views(r@) == selectable_ids(*c),
{
    let ghost pred = |x: Category| !x.always;
    let ghost f = |x: Category| x.id@;
    let mut r: Vec<&str> = Vec::new();
    let n = c.categories.len();
    let mut k: usize = 0;
    while k < n
        invariant
            n == c.categories@.len(),
            k <= n,
            pred == (|x: Category| !x.always),
            f == (|x: Category| x.id@),
            text_views(r@) == c.categories@.take(k as int).filter(pred).map_values(f),
        decreases n - k,
    {
        let ghost cs = c.categories@;
        proof {
            assert(cs.take(k + 1) =~= cs.take(k as int).push(cs[k as int]));
            cs.take(k as int).lemma_filter_push(cs[k as int], pred);
        }
        let ghost r0 = r@;
        if !c.categories[k].always {
            r.push(c.categories[k].id.as_str());
            assert(text_views(r@) =~= text_views(r0).push(cs[k as int].id@));
            assert(cs.take(k as int).filter(pred).push(cs[k as int]).map_values(f) =~= cs.take(
                k as int,
            ).filter(pred).map_values(f).push(cs[k as int].id@));
        }
        k = k + 1;
    }
    assert(c.categories@.take(n as int) =~= c.categories@);
    r
}

/// Whether `x` is among `list`.
fn contains_text(list: &Vec<&str>, x: &str) -> (r: bool)
    ensures
        r == text_views(list@).contains(x@),
{
    let n = list.len();
    let mut i: usize = 0;
    while i < n
        invariant
            n == list@.len(),
            i <= n,
            forall|k: int| 0 <= k < i ==> list@[k]@ != x@,
        decreases n - i,
    {
        if same_text(list[i], x) {
            assert(text_views(list@)[i as int] == x@);
            return true;
        }
        i = i + 1;
    }
    assert(!text_views(list@).contains(x@)) by {
        if text_views(list@).contains(x@) {
            let k = choose|k: int| 0 <= k < text_views(list@).len() && text_views(list@)[k] == x@;
            assert(text_views(list@)[k] == list@[k]@);
        }
    }
    false
}

proof fn lemma_positions_below(c: Catalog, ch: Option<Seq<char>>, n: int)
    ensures
        forall|i: int|
            0 <= i < browse_positions(c, ch, n).len() ==> browse_positions(c, ch, n)[i] < n,
    decreases n,
{
    if n > 0 {
        lemma_positions_below(c, ch, n - 1);
        let p = browse_positions(c, ch, n - 1);
        assert forall|i: int|
            0 <= i < browse_positions(c, ch, n).len() implies browse_positions(c, ch, n)[i] < n by {
            if i < p.len() {
                assert(p[i] < n - 1);
            }
        }
    }
}

proof fn lemma_item_scores_below(c: Catalog, q: Seq<char>, n: int)
    ensures
        forall|i: int| 0 <= i < item_scores(c, q, n).len() ==> item_scores(c, q, n)[i].0 < n,
        item_scores(c, q, n).len() <= if n < 0 { 0 } else { n },
    decreases n,
{
    if n > 0 {
        lemma_item_scores_below(c, q, n - 1);
    }
}

proof fn lemma_brew_scores_below(b: Seq<Package>, q: Seq<char>, n: int)
    ensures
        forall|i: int| 0 <= i < brew_scores(b, q, n).len() ==> brew_scores(b, q, n)[i].0 < n,
        brew_scores(b, q, n).len() == if n < 0 { 0 } else { n },
    decreases n,
{
    if n > 0 {
        lemma_brew_scores_below(b, q, n - 1);
    }
}

proof fn lemma_matches_below(s: Seq<(usize, Option<u32>)>, b: int)
    requires
        forall|i: int| 0 <= i < s.len() ==> s[i].0 < b,
    ensures
        forall|i: int| 0 <= i < matches_of(s).len() ==> matches_of(s)[i].0 < b,
    decreases s.len(),
{
    if s.len() > 0 {
        let t = s.drop_last();
        assert forall|i: int| 0 <= i < t.len() implies t[i].0 < b by {
            assert(t[i] == s[i]);
        }
        lemma_matches_below(t, b);
        let p = matches_of(t);
        assert forall|i: int| 0 <= i < matches_of(s).len() implies matches_of(s)[i].0 < b by {
            if i < p.len() {
                assert(p[i].0 < b);
            }
        }
    }
}

proof fn lemma_first_below_range(s: Seq<(usize, u32)>, v: u32)
    ensures
        0 <= crate::search::first_below(s, v) <= s.len(),
    decreases s.len(),
{
    if s.len() > 0 {
        lemma_first_below_range(s.drop_first(), v);
    }
}

proof fn lemma_stable_desc_below(m: Seq<(usize, u32)>, b: int)
    requires
        forall|i: int| 0 <= i < m.len() ==> m[i].0 < b,
    ensures
        stable_desc(m).len() == m.len(),
        forall|i: int| 0 <= i < stable_desc(m).len() ==> stable_desc(m)[i].0 < b,
    decreases m.len(),
{
    if m.len() > 0 {
        let p = stable_desc(m.drop_last());
        lemma_stable_desc_below(m.drop_last(), b);
        let pos = crate::search::first_below(p, m.last().1);
        lemma_first_below_range(p, m.last().1);
        p.insert_ensures(pos, m.last());
        assert forall|i: int| 0 <= i < stable_desc(m).len() implies stable_desc(m)[i].0 < b by {
            if i > pos {
                assert(p.insert(pos, m.last())[(i - 1) + 1] == p[i - 1]);
            }
        }
    }
}

/// Every position the right pane lists names an item.
pub proof fn lemma_shown_in_range(v: AppView)
    ensures
        forall|i: int| 0 <= i < shown(v).len() ==> shown(v)[i] < v.catalog.items@.len(),
{
    reveal(shown);
    let c = v.catalog;
    let n = c.items@.len() as int;
    if v.query.len() > 0 {
        lemma_item_scores_below(c, v.query, n);
        lemma_matches_below(item_scores(c, v.query, n), n);
        lemma_stable_desc_below(matches_of(item_scores(c, v.query, n)), n);
    } else {
        lemma_positions_below(c, chosen(c, v.cat_idx as int), n);
    }
}

/// Every position the browse list shows names a package.
pub proof fn lemma_shown_brew_in_range(v: AppView)
    ensures
        forall|i: int| 0 <= i < shown_brew(v).len() ==> shown_brew(v)[i] < v.brew.len(),
{
    reveal(shown_brew);
    let n = v.brew.len() as int;
    if v.brew_query.len() > 0 {
        lemma_brew_scores_below(v.brew, v.brew_query, n);
        lemma_matches_below(brew_scores(v.brew, v.brew_query, n), n);
        lemma_stable_desc_below(matches_of(brew_scores(v.brew, v.brew_query, n)), n);
    }
}

/// The keys of ranked entries, in order.
fn keys_of(r: Vec<(usize, u32)>) -> (out: Vec<usize>)
    ensures
        out@ == r@.map_values(|x: (usize, u32)| x.0),
{
    let mut out: Vec<usize> = Vec::new();
    let n = r.len();
    let mut i: usize = 0;
    while i < n
        invariant
            n == r@.len(),
            i <= n,
            out@ == r@.take(i as int).map_values(|x: (usize, u32)| x.0),
        decreases n - i,
    {
        out.push(r[i].0);
        assert(out@ =~= r@.take(i + 1).map_values(|x: (usize, u32)| x.0));
        i = i + 1;
    }
    assert(r@.take(n as int) =~= r@);
    out
}

impl App {
    /// The left-pane choices: `None` ("All") first, then each selectable
    /// category.
    pub fn categories(&self) -> (r: Vec<Option<String>>)
        ensures
            choice_views(r@) == cat_choices(self.catalog),
    {
        let ids = selectable_id_list(&self.catalog);
        let mut r: Vec<Option<String>> = Vec::new();
        r.push(None);
        let n = ids.len();
        let mut i: usize = 0;
        while i < n
            invariant
                n == ids@.len(),
                i <= n,
                text_views(ids@) == selectable_ids(self.catalog),
                choice_views(r@) == seq![None::<Seq<char>>] + text_views(ids@).take(i as int).map_values(
                    |id: Seq<char>| Some(id),
                ),
            decreases n - i,
        {
            let ghost r0 = r@;
            r.push(Some(ids[i].to_owned()));
            assert(choice_views(r@) =~= choice_views(r0).push(Some(text_views(ids@)[i as int])));
            assert(text_views(ids@).take(i + 1) =~= text_views(ids@).take(i as int).push(
                text_views(ids@)[i as int],
            ));
            assert(choice_views(r@) =~= seq![None::<Seq<char>>] + text_views(ids@).take(i + 1).map_values(
                |id: Seq<char>| Some(id),
            ));
            i = i + 1;
        }
        assert(text_views(ids@).take(n as int) =~= text_views(ids@));
        assert(choice_views(r@) =~= cat_choices(self.catalog));
        r
    }

    /// The right pane's title: the chosen category's title, or "All
    /// packages" for "All".
    pub fn pane_title(&self) -> (r: String)
        ensures
            r@ == pane_title_of(self.catalog, self.cat_idx as int),
    {
        let cats = self.categories();
        let ghost ch = cat_choices(self.catalog);
        proof {
            assert(choice_views(cats@).len() == cats@.len());
            assert(ch.len() == 1 + selectable_ids(self.catalog).len());
        }
        if self.cat_idx < cats.len() {
            let i = self.cat_idx;
            proof {
                assert(choice_views(cats@)[i as int] == opt_text(cats@[i as int]));
                if i > 0 {
                    assert(ch[i as int] == Some(selectable_ids(self.catalog)[i - 1]));
                } else {
                    assert(ch[0] == None::<Seq<char>>);
                }
            }
            match &cats[i] {
                Some(id) => {
                    return self.catalog.category_title(id.as_str());
                },
                None => {},
            }
        }
        "All packages".to_owned()
    }

    /// Catalog positions currently listed in the right pane: with a query,
    /// the matching selectable items best first; without one, the selectable
    /// items of the chosen category (or all), in catalog order.
    pub fn visible_items(&mut self) -> (r: Vec<usize>)
        ensures
            final(self)@ == old(self)@,
            r@ == shown(old(self)@),
    {
        reveal(shown);
        let ghost c = self.catalog;
        let ghost q = self.query@;
        let ids = selectable_id_list(&self.catalog);
        let n = self.catalog.items.len();
        if self.query.unicode_len() > 0 {
            let mut keys: Vec<usize> = Vec::new();
            let mut hs: Vec<String> = Vec::new();
            let mut k: usize = 0;
            while k < n
                invariant
                    n == c.items@.len(),
                    c == self.catalog,
                    q == self.query@,
                    k <= n,
                    text_views(ids@) == selectable_ids(c),
                    keys@.len() == hs@.len(),
                    item_scores(c, q, k as int).len() == keys@.len(),
                    forall|j: int|
                        0 <= j < keys@.len() ==> #[trigger] item_scores(c, q, k as int)[j] == (
                            keys@[j],
                            search_score(q, hs@[j]@),
                        ),
                decreases n - k,
            {
                if contains_text(&ids, self.catalog.items[k].category.as_str()) {
                    keys.push(k);
                    hs.push(haystack(&self.catalog.items[k]));
                }
                k = k + 1;
            }
            let mut cands: Vec<(usize, &str)> = Vec::new();
            let m = keys.len();
            let mut j: usize = 0;
            while j < m
                invariant
                    m == keys@.len(),
                    m == hs@.len(),
                    j <= m,
                    cands@.len() == j,
                    forall|t: int|
                        0 <= t < j ==> (#[trigger] cands@[t]).0 == keys@[t] && cands@[t].1@
                            == hs@[t]@,
                decreases m - j,
            {
                cands.push((keys[j], hs[j].as_str()));
                j = j + 1;
            }
            assert(scored_against(q, cands@) =~= item_scores(c, q, n as int));
            let ranked = self.searcher.rank(self.query.as_str(), cands);
            keys_of(ranked)
        } else {
            let ch: Option<&str> = if 1 <= self.cat_idx && self.cat_idx <= ids.len() {
                Some(ids[self.cat_idx - 1])
            } else {
                None
            };
            assert(opt_str(ch) == chosen(c, self.cat_idx as int));
            let mut out: Vec<usize> = Vec::new();
            let mut k: usize = 0;
            while k < n
                invariant
                    n == c.items@.len(),
                    c == self.catalog,
                    k <= n,
                    text_views(ids@) == selectable_ids(c),
                    opt_str(ch) == chosen(c, self.cat_idx as int),
                    out@ == browse_positions(c, opt_str(ch), k as int),
                decreases n - k,
            {
                let cat = self.catalog.items[k].category.as_str();
                let keep = contains_text(&ids, cat) && match ch {
                    Some(x) => same_text(cat, x),
                    None => true,
                };
                if keep {
                    out.push(k);
                }
                k = k + 1;
            }
            out
        }
    }

    /// Count of selected items in a sidebar entry, and of all its items.
    pub fn selected_in(&self, cat: &Option<String>) -> (r: (usize, usize))
        ensures
            r.0 == self.catalog.items@.filter(
                |it: Item| in_scope(self.catalog, opt_text(*cat), it) && self.sel@.selected.contains(it.id@),
            ).len(),
            r.1 == self.catalog.items@.filter(|it: Item| in_scope(self.catalog, opt_text(*cat), it)).len(),
    {
        let ghost c = self.catalog;
        let ghost pt = |it: Item| in_scope(c, opt_text(*cat), it);
        let ghost po = |it: Item| in_scope(c, opt_text(*cat), it) && self.sel@.selected.contains(it.id@);
        let ids = selectable_id_list(&self.catalog);
        let n = self.catalog.items.len();
        let mut total: usize = 0;
        let mut on: usize = 0;
        let mut k: usize = 0;
        while k < n
            invariant
                n == c.items@.len(),
                c == self.catalog,
                k <= n,
                text_views(ids@) == selectable_ids(c),
                pt == (|it: Item| in_scope(c, opt_text(*cat), it)),
                po == (|it: Item| in_scope(c, opt_text(*cat), it) && self.sel@.selected.contains(it.id@)),
                total == c.items@.take(k as int).filter(pt).len(),
                on == c.items@.take(k as int).filter(po).len(),
                on <= total <= k,
            decreases n - k,
        {
            let ghost items = c.items@;
            proof {
                assert(items.take(k + 1) =~= items.take(k as int).push(items[k as int]));
                items.take(k as int).lemma_filter_push(items[k as int], pt);
                items.take(k as int).lemma_filter_push(items[k as int], po);
            }
            let it = &self.catalog.items[k];
            let scoped = match cat {
                Some(x) => same_text(it.category.as_str(), x.as_str()),
                None => contains_text(&ids, it.category.as_str()),
            };
            if scoped {
                total = total + 1;
                if self.sel.is_selected(it.id.as_str()) {
                    on = on + 1;
                }
            }
            k = k + 1;
        }
        assert(c.items@.take(n as int) =~= c.items@);
        (on, total)
    }

    /// Package positions the browse list shows: all, in order, without a
    /// query; the matches best first with one.
    pub fn visible_brew(&mut self) -> (r: Vec<usize>)
        ensures
            final(self)@ == old(self)@,
            r@ == shown_brew(old(self)@),
    {
        reveal(shown_brew);
        let ghost b = self.brew@;
        let ghost q = self.brew_query@;
        let n = self.brew.len();
        if self.brew_query.unicode_len() == 0 {
            let mut out: Vec<usize> = Vec::new();
            let mut i: usize = 0;
            while i < n
                invariant
                    n == b.len(),
                    i <= n,
                    out@ == Seq::new(i as nat, |k: int| k as usize),
                decreases n - i,
            {
                out.push(i);
                assert(out@ =~= Seq::new((i + 1) as nat, |k: int| k as usize));
                i = i + 1;
            }
            return out;
        }
        let mut hs: Vec<String> = Vec::new();
        let mut k: usize = 0;
        while k < n
            invariant
                n == b.len(),
                b == self.brew@,
                k <= n,
                hs@.len() == k,
                forall|j: int|
                    0 <= j < k ==> #[trigger] hs@[j]@ == b[j].name@ + " "@ + b[j].desc@,
            decreases n - k,
        {
            hs.push(self.brew[k].haystack());
            k = k + 1;
        }
        let mut cands: Vec<(usize, &str)> = Vec::new();
        let mut j: usize = 0;
        while j < n
            invariant
                n == hs@.len(),
                j <= n,
                cands@.len() == j,
                forall|t: int| 0 <= t < j ==> (#[trigger] cands@[t]).0 == t && cands@[t].1@ == hs@[t]@,
            decreases n - j,
        {
            cands.push((j, hs[j].as_str()));
            j = j + 1;
        }
        proof {
            lemma_brew_scores_below(b, q, n as int);
            assert forall|t: int| 0 <= t < n implies #[trigger] brew_scores(b, q, n as int)[t] == (
                t as usize,
                search_score(q, b[t].name@ + " "@ + b[t].desc@),
            ) by {
                lemma_brew_scores_at(b, q, n as int, t);
            }
        }
        assert(scored_against(q, cands@) =~= brew_scores(b, q, n as int));
        let ranked = self.searcher.rank(self.brew_query.as_str(), cands);
        keys_of(ranked)
    }

    /// Whether package `i` of the browse list is among the custom additions.
    pub fn brew_added(&self, i: usize) -> (r: bool)
        ensures
            r == (i < self.brew@.len() && added(self.sel@, self.brew@[i as int])),
    {
        if i >= self.brew.len() {
            return false;
        }
        self.brew_is_added(&self.brew[i])
    }

    fn brew_is_added(&self, p: &Package) -> (r: bool)
        ensures
            r == added(self.sel@, *p),
    {
        match p.kind {
            BrewKind::Formula => list_contains(&self.sel.extra_brew, p.name.as_str()),
            BrewKind::Cask => list_contains(&self.sel.extra_cask, p.name.as_str()),
        }
    }

    /// Selected items carrying warning flags, in catalog order.
    pub fn flagged_selected(&self) -> (r: Vec<&Item>)
        ensures
            r@.map_values(|x: &Item| *x) == self.catalog.items@.filter(
                |it: Item| it.flags@.len() > 0 && self.sel@.selected.contains(it.id@),
            ),
    {
        let ghost pred = |it: Item| it.flags@.len() > 0 && self.sel@.selected.contains(it.id@);
        let mut out: Vec<&Item> = Vec::new();
        let n = self.catalog.items.len();
        let mut k: usize = 0;
        while k < n
            invariant
                n == self.catalog.items@.len(),
                k <= n,
                pred == (|it: Item| it.flags@.len() > 0 && self.sel@.selected.contains(it.id@)),
                out@.map_values(|x: &Item| *x) == self.catalog.items@.take(k as int).filter(pred),
            decreases n - k,
        {
            let ghost items = self.catalog.items@;
            proof {
                assert(items.take(k + 1) =~= items.take(k as int).push(items[k as int]));
                items.take(k as int).lemma_filter_push(items[k as int], pred);
            }
            let it = &self.catalog.items[k];
            if it.flags.len() > 0 && self.sel.is_selected(it.id.as_str()) {
                out.push(it);
            }
            assert(out@.map_values(|x: &Item| *x) =~= items.take(k + 1).filter(pred));
            k = k + 1;
        }
        assert(self.catalog.items@.take(n as int) =~= self.catalog.items@);
        out
    }

    /// Keep both list cursors inside their lists.
    pub fn normalize(&mut self)
        ensures
            final(self)@ == normalized(old(self)@),
    {
        let n = self.visible_items().len();
        let m = self.visible_brew().len();
        let item_idx = if n == 0 {
            0
        } else if self.item_idx >= n {
            n - 1
        } else {
            self.item_idx
        };
        let brew_idx = if m == 0 {
            0
        } else if self.brew_idx >= m {
            m - 1
        } else {
            self.brew_idx
        };
        self.item_idx = item_idx;
        self.brew_idx = brew_idx;
    }
}

pub open spec fn opt_str(o: Option<&str>) -> Option<Seq<char>> {
    match o {
        Some(s) => Some(s@),
        None => None,
    }
}

proof fn lemma_brew_scores_at(b: Seq<Package>, q: Seq<char>, n: int, t: int)
    requires
        0 <= t < n,
    ensures
        brew_scores(b, q, n)[t] == (t as usize, search_score(q, b[t].name@ + " "@ + b[t].desc@)),
    decreases n,
{
    lemma_brew_scores_below(b, q, n - 1);
    if t < n - 1 {
        lemma_brew_scores_at(b, q, n - 1, t);
    }
}


// ---- field updates ----------------------------------------------------------
//
// The handlers change the picker only through these, each stated over the
// view, so their proofs never need to look inside it.

impl App {
    /// How the fields show in the view.
    pub proof fn lemma_view(&self)
        ensures
            self@.catalog == self.catalog,
            self@.sel == self.sel@,
            self@.themes == self.themes@,
            self@.flavours == self.flavours@,
            self@.conf_path == self.conf_path@,
            self@.repo_dir == opt_text(self.repo_dir),
            self@.screen == self.screen,
            self@.start_idx == self.start_idx,
            self@.had_conf == self.had_conf,
            self@.tab == self.tab,
            self@.status == self.status@,
            self@.show_help == self.show_help,
            self@.should_quit == self.should_quit,
            self@.saved == self.saved,
            self@.ui == ui_view(self.ui),
            self@.install_requested == self.install_requested,
            self@.dryrun_requested == self.dryrun_requested,
            self@.last_install == self.last_install,
            self@.pane == self.pane,
            self@.cat_idx == self.cat_idx,
            self@.item_idx == self.item_idx,
            self@.query == self.query@,
            self@.searching == self.searching,
            self@.brew == self.brew@,
            self@.brew_idx == self.brew_idx,
            self@.brew_query == self.brew_query@,
            self@.brew_searching == self.brew_searching,
            self@.prompt == prompt_view(self.prompt),
            self@.theme_idx == self.theme_idx,
            self@.option_idx == self.option_idx,
    {
    }

    pub(crate) fn set_tab(&mut self, x: Tab)
        ensures
            final(self)@ == (AppView { tab: x, ..old(self)@ }),
    {
        self.tab = x;
    }

    pub(crate) fn set_pane(&mut self, x: Pane)
        ensures
            final(self)@ == (AppView { pane: x, ..old(self)@ }),
    {
        self.pane = x;
    }

    pub(crate) fn set_cat_idx(&mut self, x: usize)
        ensures
            final(self)@ == (AppView { cat_idx: x, ..old(self)@ }),
    {
        self.cat_idx = x;
    }

    pub(crate) fn set_item_idx(&mut self, x: usize)
        ensures
            final(self)@ == (AppView { item_idx: x, ..old(self)@ }),
    {
        self.item_idx = x;
    }

    pub(crate) fn set_searching(&mut self, x: bool)
        ensures
            final(self)@ == (AppView { searching: x, ..old(self)@ }),
    {
        self.searching = x;
    }

    pub(crate) fn set_brew_idx(&mut self, x: usize)
        ensures
            final(self)@ == (AppView { brew_idx: x, ..old(self)@ }),
    {
        self.brew_idx = x;
    }

    pub(crate) fn set_brew_searching(&mut self, x: bool)
        ensures
            final(self)@ == (AppView { brew_searching: x, ..old(self)@ }),
    {
        self.brew_searching = x;
    }

    pub(crate) fn set_theme_idx(&mut self, x: usize)
        ensures
            final(self)@ == (AppView { theme_idx: x, ..old(self)@ }),
    {
        self.theme_idx = x;
    }

    pub(crate) fn set_option_idx(&mut self, x: usize)
        ensures
            final(self)@ == (AppView { option_idx: x, ..old(self)@ }),
    {
        self.option_idx = x;
    }

    pub(crate) fn set_start_idx(&mut self, x: usize)
        ensures
            final(self)@ == (AppView { start_idx: x, ..old(self)@ }),
    {
        self.start_idx = x;
    }

    pub(crate) fn set_screen(&mut self, x: Screen)
        ensures
            final(self)@ == (AppView { screen: x, ..old(self)@ }),
    {
        self.screen = x;
    }

    pub(crate) fn set_show_help(&mut self, x: bool)
        ensures
            final(self)@ == (AppView { show_help: x, ..old(self)@ }),
    {
        self.show_help = x;
    }

    pub(crate) fn set_should_quit(&mut self, x: bool)
        ensures
            final(self)@ == (AppView { should_quit: x, ..old(self)@ }),
    {
        self.should_quit = x;
    }

    pub(crate) fn set_install_requested(&mut self, x: bool)
        ensures
            final(self)@ == (AppView { install_requested: x, ..old(self)@ }),
    {
        self.install_requested = x;
    }

    pub(crate) fn set_dryrun_requested(&mut self, x: bool)
        ensures
            final(self)@ == (AppView { dryrun_requested: x, ..old(self)@ }),
    {
        self.dryrun_requested = x;
    }

    pub(crate) fn set_status(&mut self, s: String)
        ensures
            final(self)@ == (AppView { status: s@, ..old(self)@ }),
    {
        self.status = s;
    }

    pub(crate) fn set_query(&mut self, s: String)
        ensures
            final(self)@ == (AppView { query: s@, ..old(self)@ }),
    {
        self.query = s;
    }

    pub(crate) fn set_brew_query(&mut self, s: String)
        ensures
            final(self)@ == (AppView { brew_query: s@, ..old(self)@ }),
    {
        self.brew_query = s;
    }

    pub(crate) fn set_prompt(&mut self, p: Option<Prompt>)
        ensures
            final(self)@ == (AppView { prompt: prompt_view(p), ..old(self)@ }),
    {
        self.prompt = p;
    }

    pub(crate) fn take_prompt(&mut self) -> (p: Option<Prompt>)
        ensures
            prompt_view(p) == old(self)@.prompt,
            final(self)@ == (AppView { prompt: None, ..old(self)@ }),
    {
        self.prompt.take()
    }

    pub(crate) fn set_sel(&mut self, s: Selection)
        ensures
            final(self)@ == (AppView { sel: s@, ..old(self)@ }),
    {
        self.sel = s;
    }

    pub(crate) fn set_sel_theme(&mut self, t: String)
        ensures
            final(self)@ == (AppView { sel: SelectionView { theme: t@, ..old(self)@.sel }, ..old(self)@ }),
    {
        self.sel.theme = t;
    }

    pub(crate) fn set_sel_toggles(&mut self, t: Toggles)
        ensures
            final(self)@ == (AppView { sel: SelectionView { toggles: t, ..old(self)@.sel }, ..old(self)@ }),
    {
        self.sel.toggles = t;
    }

    pub(crate) fn toggle_id(&mut self, id: &str)
        ensures
            final(self)@ == (AppView {
                sel: SelectionView {
                    selected: if old(self)@.sel.selected.contains(id@) {
                        old(self)@.sel.selected.remove(id@)
                    } else {
                        old(self)@.sel.selected.insert(id@)
                    },
                    ..old(self)@.sel
                },
                ..old(self)@
            }),
    {
        self.sel.toggle(id);
    }

    pub(crate) fn set_id(&mut self, id: &str, on: bool)
        ensures
            final(self)@ == (AppView {
                sel: SelectionView {
                    selected: if on {
                        old(self)@.sel.selected.insert(id@)
                    } else {
                        old(self)@.sel.selected.remove(id@)
                    },
                    ..old(self)@.sel
                },
                ..old(self)@
            }),
    {
        self.sel.set(id, on);
    }

    pub(crate) fn add_custom_pkg(&mut self, c: &Custom) -> (r: bool)
        ensures
            r == !custom_list(old(self)@.sel, c.cask).contains(c.name@),
            final(self)@ == (AppView {
                sel: if r {
                    with_custom_list(old(self)@.sel, c.cask, custom_list(old(self)@.sel, c.cask).push(c.name@))
                } else {
                    old(self)@.sel
                },
                ..old(self)@
            }),
    {
        self.sel.add_custom(c)
    }

    pub(crate) fn remove_custom_pkg(&mut self, name: &str, cask: bool)
        ensures
            final(self)@ == (AppView {
                sel: with_custom_list(
                    old(self)@.sel,
                    cask,
                    custom_list(old(self)@.sel, cask).filter(|n: Seq<char>| n != name@),
                ),
                ..old(self)@
            }),
    {
        self.sel.remove_custom(name, cask);
    }
}

impl App {
    /// Whether the custom list of this kind holds `name`.
    pub(crate) fn sel_has_custom(&self, name: &str, cask: bool) -> (r: bool)
        ensures
            r == custom_list(self@.sel, cask).contains(name@),
    {
        if cask {
            list_contains(&self.sel.extra_cask, name)
        } else {
            list_contains(&self.sel.extra_brew, name)
        }
    }
}

// ---- hand-offs to the caller ------------------------------------------------

/// The status after a successful write of the conf.
pub open spec fn saved_status(path: Seq<char>) -> Seq<char> {
    "Saved "@ + path + " — run `newmac install`"@
}

/// The status after a live refresh: the list's size, nothing came back, or
/// the error.
pub open spec fn refresh_status(r: Result<Seq<Package>, Seq<char>>) -> Seq<char> {
    match r {
        Ok(list) => if list.len() > 0 {
            "Refreshed — "@ + decimal(list.len()) + " popular packages (live)"@
        } else {
            "Refresh returned nothing — keeping bundled list"@
        },
        Err(e) => "Refresh failed ("@ + e + ") — keeping bundled list"@,
    }
}

/// The status after an installer run.
pub open spec fn install_status(o: InstallOutcome) -> Seq<char> {
    match o {
        InstallOutcome::Succeeded => "Install finished."@,
        InstallOutcome::Failed(c) => "Install exited "@ + signed_decimal(c as int) + " — see the log."@,
        InstallOutcome::DryRun => "Dry-run complete — nothing installed."@,
    }
}

pub open spec fn list_result(r: Result<Vec<Package>, String>) -> Result<Seq<Package>, Seq<char>> {
    match r {
        Ok(l) => Ok(l@),
        Err(e) => Err(e@),
    }
}

impl App {
    /// Start a save: the highlighted theme becomes the selection's, and the
    /// conf text to write is returned. Hand the outcome of the write to
    /// [`App::finish_save`].
    pub fn begin_save(&mut self, note: &str) -> (body: String)
        requires
            old(self).wf(),
        ensures
            final(self).wf(),
            final(self)@ == (AppView {
                sel: SelectionView {
                    theme: old(self)@.themes[old(self)@.theme_idx as int].id@,
                    ..old(self)@.sel
                },
                ..old(self)@
            }),
            body@ == conf_text(final(self).sel, note@),
    {
        self.sel.theme = self.themes[self.theme_idx].id.clone();
        self.sel.render_conf(note)
    }

    /// The write of the conf ended: when it succeeded the picker is marked
    /// saved and says where; otherwise nothing changes.
    pub fn finish_save(&mut self, written: bool)
        ensures
            final(self)@ == (if written {
                AppView { saved: true, status: saved_status(old(self)@.conf_path), ..old(self)@ }
            } else {
                old(self)@
            }),
    {
        if written {
            let mut s = "Saved ".to_owned();
            s.append(self.conf_path.as_str());
            s.append(" — run `newmac install`");
            self.saved = true;
            self.status = s;
        }
    }

    /// The live list arrived (or did not): a non-empty list replaces the
    /// browse list with the cursor on top; the status says what happened.
    pub fn finish_refresh(&mut self, r: Result<Vec<Package>, String>)
        ensures
            final(self)@ == (match list_result(r) {
                Ok(list) => if list.len() > 0 {
                    AppView {
                        brew: list,
                        brew_idx: 0,
                        status: refresh_status(list_result(r)),
                        ..old(self)@
                    }
                } else {
                    AppView { status: refresh_status(list_result(r)), ..old(self)@ }
                },
                Err(_) => AppView { status: refresh_status(list_result(r)), ..old(self)@ },
            }),
    {
        match r {
            Ok(list) => {
                if list.len() > 0 {
                    let mut s = "Refreshed — ".to_owned();
                    push_decimal(&mut s, list.len() as u64);
                    s.append(" popular packages (live)");
                    self.brew = list;
                    self.brew_idx = 0;
                    self.status = s;
                } else {
                    self.status = "Refresh returned nothing — keeping bundled list".to_owned();
                }
            },
            Err(e) => {
                let mut s = "Refresh failed (".to_owned();
                s.append(e.as_str());
                s.append(") — keeping bundled list");
                self.status = s;
            },
        }
    }

    /// An install or dry run asked for on the Save tab, taken: `Some(dry)`
    /// and both requests cleared, or `None` when neither was asked.
    pub fn take_install_request(&mut self) -> (r: Option<bool>)
        ensures
            r == (if old(self)@.install_requested || old(self)@.dryrun_requested {
                Some(old(self)@.dryrun_requested)
            } else {
                None
            }),
            final(self)@ == (AppView {
                install_requested: false,
                dryrun_requested: false,
                ..old(self)@
            }),
    {
        let r = if self.install_requested || self.dryrun_requested {
            Some(self.dryrun_requested)
        } else {
            None
        };
        self.install_requested = false;
        self.dryrun_requested = false;
        r
    }

    /// The installer run ended: the outcome is recorded and the status says
    /// it.
    pub fn finish_install(&mut self, o: InstallOutcome)
        ensures
            final(self)@ == (AppView {
                last_install: Some(o),
                status: install_status(o),
                ..old(self)@
            }),
    {
        let s = match o {
            InstallOutcome::Succeeded => "Install finished.".to_owned(),
            InstallOutcome::Failed(c) => {
                let mut s = "Install exited ".to_owned();
                push_signed(&mut s, c);
                s.append(" — see the log.");
                s
            },
            InstallOutcome::DryRun => "Dry-run complete — nothing installed.".to_owned(),
        };
        self.last_install = Some(o);
        self.status = s;
    }

    /// No repo to run the installer from: the status says so.
    pub fn repo_missing(&mut self)
        ensures
            final(self)@ == (AppView {
                status: "Can't locate the repo (set $NEWMAC) — save and run `newmac install`."@,
                ..old(self)@
            }),
    {
        self.status = "Can't locate the repo (set $NEWMAC) — save and run `newmac install`.".to_owned();
    }
}
} // verus!
