//! Drive the picker through `on_key` / `on_mouse` with no terminal attached,
//! asserting on the resulting state and on the conf it would write.

use newmac_core::app::App;
use newmac_core::brew::{BrewKind, Package};
use newmac_core::catalog::{Catalog, Category, Flag, Item, Kind};
use newmac_core::flavour::Flavour;
use newmac_core::picker::{
    Effect, InstallOutcome, Key, Mouse, Pane, Rect, Screen, Slot, StartEntry, Tab,
};
use newmac_core::selection::Selection;
use newmac_core::theme::{build, RawTheme, Theme};

fn cat(id: &str, title: &str, always: bool) -> Category {
    Category {
        id: id.to_string(),
        title: title.to_string(),
        always,
    }
}

fn item(id: &str, category: &str, default: bool) -> Item {
    Item {
        id: id.to_string(),
        category: category.to_string(),
        kind: Kind::Brew,
        default,
        payload: id.to_string(),
        name: id.to_uppercase(),
        description: format!("the {id} tool"),
        flags: Vec::new(),
    }
}

fn catalog() -> Catalog {
    let mut xcode = item("xcode", "dev", false);
    xcode.flags = vec![Flag::Large];
    xcode.kind = Kind::Mas;
    Catalog::new(
        vec![
            cat("core", "Core", true),
            cat("terminals", "Terminals", false),
            cat("dev", "Developer tools", false),
            cat("apps", "Apps", false),
        ],
        vec![
            item("bat", "core", true),
            item("ghostty", "terminals", true),
            item("rio", "terminals", false),
            item("docker", "dev", true),
            item("neovim", "dev", false),
            xcode,
            item("vlc", "apps", false),
            item("aerospace", "apps", false),
        ],
    )
    .unwrap()
}

fn raw(id: &str, title: &str) -> RawTheme {
    RawTheme {
        id: id.into(),
        title: title.into(),
        ghostty: id.into(),
        base: "#000000".into(),
        surface: "#111111".into(),
        text: "#ffffff".into(),
        subtext: "#eeeeee".into(),
        accent: "#bb9af7".into(),
        accent2: "#010203".into(),
        red: "#ff0000".into(),
        green: "#00ff00".into(),
        yellow: "#ffff00".into(),
        blue: "#0000ff".into(),
    }
}

fn themes() -> Vec<Theme> {
    vec![
        build(raw("tokyonight", "Tokyo Night")),
        build(raw("nord", "Nord")),
        build(raw("gruvbox", "Gruvbox")),
    ]
}

fn pkg(name: &str, kind: BrewKind) -> Package {
    Package {
        name: name.into(),
        desc: format!("{name} package"),
        kind,
        installs: Some(10),
    }
}

fn brew_list() -> Vec<Package> {
    vec![
        pkg("htop", BrewKind::Formula),
        pkg("google-chrome", BrewKind::Cask),
        pkg("neovim", BrewKind::Formula),
    ]
}

fn jack() -> Flavour {
    Flavour {
        id: "jack".into(),
        title: "Jack's setup".into(),
        desc: "what Jack runs".into(),
        theme: "nord".into(),
        glass: true,
        ricing: true,
        macos_defaults: false,
        power: true,
        schedule: false,
        dock: true,
        ids: vec!["rio".into(), "aerospace".into()],
    }
}

fn app_with_conf() -> App {
    let catalog = catalog();
    let sel = Selection::from_defaults(&catalog);
    App::with_themes(
        catalog,
        sel,
        "/tmp/newmac.conf".into(),
        None,
        themes(),
        brew_list(),
    )
}

fn app_start(had_conf: bool, sel: Selection) -> App {
    App::new_full(
        catalog(),
        sel,
        "/tmp/newmac.conf".into(),
        None,
        themes(),
        vec![jack()],
        brew_list(),
        had_conf,
    )
}

fn feed(app: &mut App, keys: &[Key]) {
    for k in keys {
        app.on_key(*k);
        app.normalize();
    }
}

fn slot(x: u16, y: u16, width: u16, height: u16) -> Slot {
    Slot {
        rect: Rect {
            x,
            y,
            width,
            height,
        },
        offset: 0,
    }
}

/// Geometry as a 120x40 draw would record it.
fn drawn(app: &mut App) {
    app.ui.tabs_rect = Rect {
        x: 0,
        y: 1,
        width: 120,
        height: 1,
    };
    app.ui.tab_spans = vec![(1, 11), (14, 31), (34, 41), (44, 53), (56, 62)];
    app.ui.start = slot(2, 4, 100, 10);
    app.ui.cat = slot(1, 4, 28, 30);
    app.ui.items = slot(31, 4, 88, 30);
    app.ui.brew = slot(1, 4, 118, 30);
    app.ui.theme = slot(1, 4, 40, 30);
    app.ui.options = slot(1, 4, 60, 10);
}

#[test]
fn toggling_an_item_updates_selection() {
    let mut app = app_with_conf();
    app.on_key(Key::Right); // focus items
    let vis = app.visible_items();
    let first = app.catalog.items[vis[0]].id.clone();
    let before = app.sel.is_selected(&first);
    app.on_key(Key::Char(' '));
    assert_ne!(before, app.sel.is_selected(&first));
    assert_eq!(app.status, format!("Removed {}", first.to_uppercase()));
}

#[test]
fn slash_enters_global_search_and_filters() {
    let mut app = app_with_conf();
    feed(&mut app, &[Key::Char('/')]);
    assert!(app.searching);
    for c in "docker".chars() {
        app.on_key(Key::Char(c));
    }
    app.normalize();
    let vis = app.visible_items();
    assert!(!vis.is_empty());
    assert!(vis.iter().any(|&i| app.catalog.items[i].id == "docker"));
    // Items of the always-installed category are never listed.
    assert!(vis.iter().all(|&i| app.catalog.items[i].id != "bat"));
    app.on_key(Key::Enter);
    assert!(!app.searching);
    assert_eq!(app.status, "Filtered by \"docker\" · Esc clears");
    app.on_key(Key::Char('/'));
    app.on_key(Key::Esc);
    assert!(!app.searching);
    assert!(app.query.is_empty());
    assert_eq!(app.status, "Search cleared");
}

#[test]
fn search_backspace_edits_the_query() {
    let mut app = app_with_conf();
    feed(&mut app, &[Key::Char('/'), Key::Char('r'), Key::Char('x')]);
    assert_eq!(app.query, "rx");
    app.on_key(Key::Backspace);
    assert_eq!(app.query, "r");
    assert_eq!(app.item_idx, 0);
}

#[test]
fn number_keys_switch_tabs() {
    let mut app = app_with_conf();
    app.on_key(Key::Char('2'));
    assert_eq!(app.tab, Tab::Browse);
    app.on_key(Key::Char('3'));
    assert_eq!(app.tab, Tab::Theme);
    app.on_key(Key::Char('5'));
    assert_eq!(app.tab, Tab::Save);
    app.on_key(Key::Tab);
    assert_eq!(app.tab, Tab::Packages);
    app.on_key(Key::BackTab);
    assert_eq!(app.tab, Tab::Save);
    app.on_key(Key::Char('['));
    assert_eq!(app.tab, Tab::Options);
}

#[test]
fn select_all_and_none_in_a_category() {
    let mut app = app_with_conf();
    app.on_key(Key::Down); // first real category: terminals
    assert_eq!(app.cat_idx, 1);
    app.on_key(Key::Char('n'));
    let vis = app.visible_items();
    assert_eq!(vis.len(), 2);
    assert!(vis
        .iter()
        .all(|&i| !app.sel.is_selected(&app.catalog.items[i].id)));
    assert_eq!(app.status, "Cleared all shown");
    app.on_key(Key::Char('a'));
    assert!(vis
        .iter()
        .all(|&i| app.sel.is_selected(&app.catalog.items[i].id)));
    assert_eq!(app.status, "Selected all shown");
}

#[test]
fn category_cursor_wraps_round() {
    let mut app = app_with_conf();
    // All + three selectable categories.
    assert_eq!(app.categories().len(), 4);
    app.on_key(Key::Up);
    assert_eq!(app.cat_idx, 3);
    app.on_key(Key::Down);
    assert_eq!(app.cat_idx, 0);
}

#[test]
fn browse_add_and_custom_flow_writes_extras() {
    let mut app = app_with_conf();
    app.on_key(Key::Char('2'));
    assert_eq!(app.tab, Tab::Browse);
    let vis = app.visible_brew();
    assert_eq!(vis, vec![0, 1, 2]);
    let first = app.brew[vis[0]].clone();
    app.on_key(Key::Char('a'));
    assert!(app.sel.extra_brew.contains(&first.name));
    assert_eq!(app.status, "Added htop (formula)");
    assert!(app.brew_added(0));

    app.on_key(Key::Char('c'));
    assert!(app.prompt.is_some());
    for ch in " neofetch ".chars() {
        app.on_key(Key::Char(ch));
    }
    app.on_key(Key::Enter);
    assert!(app.prompt.is_none());
    assert!(app.sel.extra_brew.contains(&"neofetch".to_string()));
    assert_eq!(app.status, "Added custom formula neofetch");

    // The same name again is refused.
    app.on_key(Key::Char('c'));
    for ch in "neofetch".chars() {
        app.on_key(Key::Char(ch));
    }
    app.on_key(Key::Enter);
    assert_eq!(app.status, "neofetch already added");
    assert_eq!(app.sel.extra_brew.len(), 2);

    assert_eq!(app.on_key(Key::CtrlS), Effect::Save);
    assert_eq!(app.tab, Tab::Save);
    let conf = app.begin_save("newmac-ui test");
    app.finish_save(true);
    assert!(app.saved);
    assert_eq!(app.status, "Saved /tmp/newmac.conf — run `newmac install`");
    assert!(conf.contains("NEWMAC_EXTRA_BREW="));
    assert!(conf.contains("neofetch"));
    let reparsed = Selection::parse_conf(&conf);
    assert!(reparsed.extra_brew.contains(&"neofetch".to_string()));
}

#[test]
fn browse_toggle_removes_an_added_package() {
    let mut app = app_with_conf();
    app.on_key(Key::Char('2'));
    app.on_key(Key::Down); // google-chrome, a cask
    app.on_key(Key::Enter);
    assert_eq!(app.sel.extra_cask, vec!["google-chrome".to_string()]);
    assert_eq!(app.status, "Added google-chrome (cask)");
    app.on_key(Key::Enter);
    assert!(app.sel.extra_cask.is_empty());
    assert_eq!(app.status, "Removed google-chrome");
}

#[test]
fn prompt_edits_and_cancels() {
    let mut app = app_with_conf();
    app.on_key(Key::Char('2'));
    app.on_key(Key::Char('C'));
    let p = app.prompt.clone().unwrap();
    assert_eq!(p.label, "Add custom cask (brew install --cask)");
    app.on_key(Key::Char('x'));
    app.on_key(Key::Char('y'));
    app.on_key(Key::Backspace);
    assert_eq!(app.prompt.clone().unwrap().input, "x");
    app.on_key(Key::Esc);
    assert!(app.prompt.is_none());
    assert!(app.sel.extra_cask.is_empty());
    // An empty name adds nothing.
    app.on_key(Key::Char('C'));
    app.on_key(Key::Char(' '));
    app.on_key(Key::Enter);
    assert!(app.prompt.is_none());
    assert!(app.sel.extra_cask.is_empty());
}

#[test]
fn refresh_hands_back_to_the_caller() {
    let mut app = app_with_conf();
    app.on_key(Key::Char('2'));
    assert_eq!(app.on_key(Key::Char('r')), Effect::Refresh);
    assert_eq!(app.status, "Refreshing from formulae.brew.sh…");
    app.finish_refresh(Err("offline".into()));
    assert_eq!(app.status, "Refresh failed (offline) — keeping bundled list");
    assert_eq!(app.brew.len(), 3);
    app.finish_refresh(Ok(Vec::new()));
    assert_eq!(app.status, "Refresh returned nothing — keeping bundled list");
    app.brew_idx = 2;
    let live: Vec<Package> = (0..12).map(|i| pkg(&format!("p{i}"), BrewKind::Formula)).collect();
    app.finish_refresh(Ok(live));
    assert_eq!(app.brew.len(), 12);
    assert_eq!(app.brew_idx, 0);
    assert_eq!(app.status, "Refreshed — 12 popular packages (live)");
}

#[test]
fn brew_search_filters_the_list() {
    let mut app = app_with_conf();
    app.on_key(Key::Char('2'));
    app.on_key(Key::Char('/'));
    assert!(app.brew_searching);
    for c in "chrome".chars() {
        app.on_key(Key::Char(c));
    }
    let vis = app.visible_brew();
    assert_eq!(vis[0], 1);
    app.on_key(Key::Esc);
    assert!(app.brew_query.is_empty());
    assert_eq!(app.visible_brew(), vec![0, 1, 2]);
}

#[test]
fn theme_selection_persists_to_conf() {
    let mut app = app_with_conf();
    assert_eq!(app.theme_idx, 0); // tokyonight, the default theme
    app.on_key(Key::Char('3'));
    app.on_key(Key::Down);
    app.on_key(Key::Char(' '));
    let chosen = app.themes[app.theme_idx].id.clone();
    assert_eq!(chosen, "nord");
    assert_eq!(app.status, "Theme: Nord");
    app.on_key(Key::CtrlS);
    let conf = app.begin_save("t");
    assert!(conf.contains(&format!("NEWMAC_THEME={chosen}")));
}

#[test]
fn saving_takes_the_highlighted_theme() {
    let mut app = app_with_conf();
    app.on_key(Key::Char('3'));
    app.on_key(Key::Up); // wraps to gruvbox, not applied
    assert_eq!(app.sel.theme, "tokyonight");
    let conf = app.begin_save("t");
    assert_eq!(app.sel.theme, "gruvbox");
    assert!(conf.contains("NEWMAC_THEME=gruvbox"));
    app.finish_save(false);
    assert!(!app.saved);
}

#[test]
fn options_toggle_flips_conf_bits() {
    let mut app = app_with_conf();
    app.on_key(Key::Char('4'));
    let before = app.sel.toggles.ricing;
    app.on_key(Key::Char(' '));
    assert_ne!(before, app.sel.toggles.ricing);
    app.on_key(Key::Up); // wraps to the Dock row
    assert_eq!(app.option_idx, 4);
    let dock = app.sel.toggles.dock;
    app.on_key(Key::Enter);
    assert_ne!(dock, app.sel.toggles.dock);
}

#[test]
fn help_overlay_swallows_one_key() {
    let mut app = app_with_conf();
    app.on_key(Key::Char('?'));
    assert!(app.show_help);
    app.on_key(Key::Char('j'));
    assert!(!app.show_help);
    assert_eq!(app.cat_idx, 0);
}

#[test]
fn save_screen_install_keys_save_then_request() {
    let mut app = app_with_conf();
    app.on_key(Key::Char('5'));
    assert_eq!(app.on_key(Key::Char('i')), Effect::Save);
    assert!(app.install_requested);
    app.begin_save("t");
    app.finish_save(true);
    assert!(app.saved);
    assert_eq!(app.take_install_request(), Some(false));
    assert!(!app.install_requested);
    assert_eq!(app.on_key(Key::Char('d')), Effect::Nothing); // already saved
    assert!(app.dryrun_requested);
    assert_eq!(app.take_install_request(), Some(true));
    assert_eq!(app.take_install_request(), None);
}

#[test]
fn install_outcomes_are_reported() {
    let mut app = app_with_conf();
    app.finish_install(InstallOutcome::Failed(-1));
    assert_eq!(app.last_install, Some(InstallOutcome::Failed(-1)));
    assert_eq!(app.status, "Install exited -1 — see the log.");
    app.finish_install(InstallOutcome::Failed(127));
    assert_eq!(app.status, "Install exited 127 — see the log.");
    app.finish_install(InstallOutcome::Succeeded);
    assert_eq!(app.status, "Install finished.");
    app.finish_install(InstallOutcome::DryRun);
    assert_eq!(app.status, "Dry-run complete — nothing installed.");
    app.repo_missing();
    assert!(app.status.starts_with("Can't locate the repo"));
}

#[test]
fn quit_keys_end_the_picker() {
    let mut app = app_with_conf();
    app.on_key(Key::Char('q'));
    assert!(app.should_quit);
    let mut app = app_with_conf();
    app.on_key(Key::Esc);
    assert!(app.should_quit);
}

#[test]
fn start_screen_seeds_jack_and_enters_picker() {
    let catalog = catalog();
    let mut app = app_start(false, Selection::from_defaults(&catalog));
    assert_eq!(app.screen, Screen::Start);
    assert_eq!(app.start_idx, 0, "Jack's flavour highlighted on a fresh run");
    app.on_key(Key::Enter);
    assert_eq!(app.screen, Screen::Picker);
    assert_eq!(app.tab, Tab::Packages);
    assert!(app.sel.is_selected("rio"));
    assert!(app.sel.is_selected("aerospace"));
    assert!(!app.sel.is_selected("ghostty"));
    assert_eq!(app.sel.theme, "nord");
    assert!(app.sel.glass);
    assert_eq!(app.themes[app.theme_idx].id, "nord");
}

#[test]
fn start_custom_lands_on_defaults() {
    let catalog = catalog();
    let mut app = app_start(false, Selection::from_defaults(&catalog));
    let custom_idx = app.flavours.len();
    assert_eq!(app.start_entries()[custom_idx], StartEntry::Custom);
    app.start_idx = custom_idx;
    app.on_key(Key::Enter);
    assert_eq!(app.screen, Screen::Picker);
    assert!(app.sel.is_selected("ghostty"));
    assert!(!app.sel.glass);
}

#[test]
fn keep_current_preserves_loaded_selection() {
    let mut sel = Selection::default();
    sel.selected.insert("vlc".to_string());
    let mut app = app_start(true, sel);
    let entries = app.start_entries();
    assert_eq!(entries.last(), Some(&StartEntry::KeepCurrent));
    assert_eq!(app.start_idx, entries.len() - 1, "Keep current is default with a conf");
    app.on_key(Key::Enter);
    assert_eq!(app.screen, Screen::Picker);
    assert!(app.sel.is_selected("vlc"));
}

#[test]
fn start_cursor_wraps_round() {
    let catalog = catalog();
    let mut app = app_start(false, Selection::from_defaults(&catalog));
    app.on_key(Key::Up);
    assert_eq!(app.start_idx, 1);
    app.on_key(Key::Char('j'));
    assert_eq!(app.start_idx, 0);
}

#[test]
fn b_returns_to_the_presets_screen() {
    let catalog = catalog();
    let mut app = app_start(false, Selection::from_defaults(&catalog));
    app.on_key(Key::Enter);
    assert_eq!(app.screen, Screen::Picker);
    app.on_key(Key::Char('b'));
    assert_eq!(app.screen, Screen::Start);
}

#[test]
fn pane_navigation() {
    let mut app = app_with_conf();
    assert_eq!(app.pane, Pane::Categories);
    app.on_key(Key::Right);
    assert_eq!(app.pane, Pane::Items);
    app.on_key(Key::Left);
    assert_eq!(app.pane, Pane::Categories);
    app.on_key(Key::Char('l'));
    assert_eq!(app.pane, Pane::Items);
    app.on_key(Key::Char('h'));
    assert_eq!(app.pane, Pane::Categories);
}

#[test]
fn sidebar_counts_and_flagged_items() {
    let mut app = app_with_conf();
    assert_eq!(app.selected_in(&None), (2, 7));
    assert_eq!(app.selected_in(&Some("dev".into())), (1, 3));
    assert!(app.flagged_selected().is_empty());
    app.sel.set("xcode", true);
    let flagged: Vec<&str> = app.flagged_selected().iter().map(|i| i.id.as_str()).collect();
    assert_eq!(flagged, vec!["xcode"]);
    app.cat_idx = 2; // dev
    assert_eq!(app.visible_items(), vec![3, 4, 5]);
}

#[test]
fn normalize_clamps_cursors() {
    let mut app = app_with_conf();
    app.item_idx = 99;
    app.brew_idx = 99;
    app.normalize();
    assert_eq!(app.item_idx, 6);
    assert_eq!(app.brew_idx, 2);
}

#[test]
fn click_a_tab_switches_to_it() {
    let mut app = app_with_conf();
    drawn(&mut app);
    let (x0, x1) = app.ui.tab_spans[1];
    app.on_mouse(Mouse::Down((x0 + x1) / 2, app.ui.tabs_rect.y));
    assert_eq!(app.tab, Tab::Browse);
    let (x0, x1) = app.ui.tab_spans[3];
    app.on_mouse(Mouse::Down((x0 + x1) / 2, app.ui.tabs_rect.y));
    assert_eq!(app.tab, Tab::Options);
    // Between two titles: nothing.
    app.on_mouse(Mouse::Down(12, app.ui.tabs_rect.y));
    assert_eq!(app.tab, Tab::Options);
}

#[test]
fn click_a_category_selects_it() {
    let mut app = app_with_conf();
    drawn(&mut app);
    let r = app.ui.cat.rect;
    app.on_mouse(Mouse::Down(r.x + 1, r.y + 2));
    assert_eq!(app.cat_idx, 2);
    assert_eq!(app.pane, Pane::Categories);
    // Below the last category: nothing.
    app.on_mouse(Mouse::Down(r.x + 1, r.y + 9));
    assert_eq!(app.cat_idx, 2);
}

#[test]
fn click_an_item_toggles_it() {
    let mut app = app_with_conf();
    drawn(&mut app);
    let vis = app.visible_items();
    let target = app.catalog.items[vis[1]].id.clone();
    let before = app.sel.is_selected(&target);
    let r = app.ui.items.rect;
    app.on_mouse(Mouse::Down(r.x + 2, r.y + 1));
    assert_ne!(before, app.sel.is_selected(&target));
    assert_eq!(app.pane, Pane::Items);
    assert_eq!(app.item_idx, 1);
}

#[test]
fn scroll_moves_the_item_cursor() {
    let mut app = app_with_conf();
    drawn(&mut app);
    let r = app.ui.items.rect;
    let before = app.item_idx;
    app.on_mouse(Mouse::Scroll(true, r.x + 2, r.y + 2));
    assert_eq!(app.item_idx, before + 1);
    app.on_mouse(Mouse::Scroll(false, r.x + 2, r.y + 2));
    assert_eq!(app.item_idx, before);
    // Over the categories the wheel moves the category cursor.
    let c = app.ui.cat.rect;
    app.on_mouse(Mouse::Scroll(true, c.x + 1, c.y + 1));
    assert_eq!(app.cat_idx, 1);
    assert_eq!(app.pane, Pane::Categories);
}

#[test]
fn wheel_up_then_down_on_items_wraps_and_returns() {
    let mut app = app_with_conf();
    drawn(&mut app);
    let r = app.ui.items.rect;
    let n = app.visible_items().len();
    assert!(n > 1);
    assert_eq!(app.item_idx, 0);
    app.on_mouse(Mouse::Scroll(false, r.x + 2, r.y + 2));
    assert_eq!(app.item_idx, n - 1);
    assert_eq!(app.pane, Pane::Items);
    app.on_mouse(Mouse::Scroll(true, r.x + 2, r.y + 2));
    assert_eq!(app.item_idx, 0);
    assert_eq!(app.pane, Pane::Items);
}

#[test]
fn pane_title_follows_the_category_cursor() {
    let mut app = app_with_conf();
    assert_eq!(app.cat_idx, 0);
    assert_eq!(app.pane_title(), "All packages");
    app.cat_idx = 2;
    assert_eq!(app.pane_title(), "Developer tools");
    app.cat_idx = 1;
    assert_eq!(app.pane_title(), "Terminals");
    app.cat_idx = 9;
    assert_eq!(app.pane_title(), "All packages");
}

#[test]
fn wheel_on_the_presets_screen_moves_and_returns() {
    let mut app = app_start(true, Selection::default());
    let start = app.start_idx;
    let n = app.start_entries().len();
    assert_eq!(n, 3);
    app.on_mouse(Mouse::Scroll(true, 5, 5));
    assert_eq!(app.start_idx, (start + 1) % n);
    assert_eq!(app.item_idx, 0);
    app.on_mouse(Mouse::Scroll(false, 5, 5));
    assert_eq!(app.start_idx, start);
}

#[test]
fn click_an_option_toggles_it() {
    let mut app = app_with_conf();
    app.on_key(Key::Char('4'));
    drawn(&mut app);
    let r = app.ui.options.rect;
    let before = app.sel.toggles.macos_defaults;
    app.on_mouse(Mouse::Down(r.x + 1, r.y + 1));
    assert_ne!(before, app.sel.toggles.macos_defaults);
}

#[test]
fn click_a_theme_applies_it() {
    let mut app = app_with_conf();
    app.on_key(Key::Char('3'));
    drawn(&mut app);
    let r = app.ui.theme.rect;
    app.on_mouse(Mouse::Down(r.x + 1, r.y + 2));
    assert_eq!(app.sel.theme, app.themes[2].id);
    assert_eq!(app.theme_idx, 2);
}

#[test]
fn click_a_preset_on_the_start_screen_selects_it() {
    let catalog = catalog();
    let mut app = app_start(false, Selection::from_defaults(&catalog));
    drawn(&mut app);
    let r = app.ui.start.rect;
    app.on_mouse(Mouse::Down(r.x + 2, r.y));
    assert_eq!(app.screen, Screen::Picker);
    assert!(app.sel.is_selected("rio"));
    assert_eq!(app.sel.theme, "nord");
}

#[test]
fn click_a_popular_package_adds_it() {
    let mut app = app_with_conf();
    app.on_key(Key::Char('2'));
    drawn(&mut app);
    let idx0 = app.visible_brew()[0];
    let first = app.brew[idx0].clone();
    let r = app.ui.brew.rect;
    app.on_mouse(Mouse::Down(r.x + 2, r.y));
    let added =
        app.sel.extra_brew.contains(&first.name) || app.sel.extra_cask.contains(&first.name);
    assert!(added, "clicking a popular package should add it");
}

#[test]
fn help_overlay_takes_a_click_not_the_wheel() {
    let mut app = app_with_conf();
    drawn(&mut app);
    app.on_key(Key::Char('?'));
    app.on_mouse(Mouse::Scroll(true, 40, 6));
    assert!(app.show_help);
    assert_eq!(app.item_idx, 0);
    app.on_mouse(Mouse::Down(40, 6));
    assert!(!app.show_help);
}

#[test]
fn save_summary_lists_the_picks() {
    let mut app = app_with_conf();
    app.sel.add_custom(&newmac_core::selection::Custom {
        name: "htop".into(),
        cask: false,
    });
    app.sel.add_custom(&newmac_core::selection::Custom {
        name: "zed".into(),
        cask: true,
    });
    app.sel.set("neovim", true);
    app.sel.toggles.schedule = true;
    let lines: Vec<(String, String)> =
        app.summary().into_iter().map(|l| (l.label, l.text)).collect();
    let want: Vec<(String, String)> = vec![
        ("Core (always)".into(), "1 shell & CLI tools".into()),
        ("Terminals (1/2)".into(), "GHOSTTY".into()),
        ("Developer tools (2/3)".into(), "DOCKER, NEOVIM".into()),
        ("Custom Homebrew".into(), "htop, zed (cask)".into()),
        ("Theme".into(), "Tokyo Night".into()),
        (
            "Toggles".into(),
            "ricing=1 defaults=1 power=1 weekly=1 dock=1".into(),
        ),
    ];
    assert_eq!(lines, want);
}
