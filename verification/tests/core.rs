//! Integration tests for the newmac core: catalog checks, selection I/O,
//! search ranking, themes, flavours, Homebrew lists and the generated bash.

use newmac_core::brew::{
    bundled_from, dedupe, merge_refresh, parse_count, ranked_packages, refresh as live_refresh,
    AnalyticsItem, BrewKind, Package, RawPkg,
};
use newmac_core::catalog::{Catalog, CatalogError, Category, Flag, Item, Kind};
use newmac_core::flavour::{default_theme, order, Flavour};
use newmac_core::gensh::{render_presets, PRESETS_HEADER};
use newmac_core::search::{haystack, rank_scored, Searcher};
use newmac_core::selection::{as_bool, unquote, Custom, Selection, Toggles};
use newmac_core::theme::{build, parse_hex, parse_theme_sh, sort_tokyonight_first, RawTheme, Rgb};

fn cat(id: &str, title: &str, always: bool) -> Category {
    Category {
        id: id.to_string(),
        title: title.to_string(),
        always,
    }
}

fn item(id: &str, category: &str, default: bool) -> Item {
    Item {
        id: id.to_string(),
        category: category.to_string(),
        kind: Kind::Brew,
        default,
        payload: id.to_string(),
        name: id.to_uppercase(),
        description: format!("the {id} tool"),
        flags: Vec::new(),
    }
}

fn small_catalog() -> Catalog {
    Catalog::new(
        vec![
            cat("core", "Core", true),
            cat("terminals", "Terminals", false),
            cat("agents", "Agents & ADEs", false),
        ],
        vec![
            item("bat", "core", true),
            item("ghostty", "terminals", true),
            item("rio", "terminals", false),
            item("orca", "agents", false),
            item("amp", "agents", true),
        ],
    )
    .unwrap()
}

#[test]
fn duplicate_ids_are_rejected() {
    let categories = vec![cat("a", "A", false)];
    let mut x1 = item("x", "a", false);
    x1.payload = "x".into();
    x1.name = "X".into();
    let mut x2 = item("x", "a", false);
    x2.payload = "x2".into();
    x2.name = "X2".into();
    assert!(Catalog::new(categories, vec![x1, x2]).is_err());
}

#[test]
fn unknown_category_is_rejected() {
    let categories = vec![cat("a", "A", false)];
    let mut x = item("x", "nope", false);
    x.payload = "x".into();
    x.name = "X".into();
    assert!(Catalog::new(categories, vec![x]).is_err());
}

#[test]
fn catalog_errors_name_the_first_offender() {
    let cats = vec![cat("a", "A", false)];
    let r = Catalog::new(cats, vec![item("x", "a", false), item("y", "b", false), item("y", "c", false)]);
    assert_eq!(
        r.err(),
        Some(CatalogError::UnknownCategory {
            item: "y".into(),
            category: "b".into()
        })
    );
    let cats = vec![cat("a", "A", false)];
    let r = Catalog::new(
        cats,
        vec![item("x", "a", false), item("y", "a", false), item("x", "a", false)],
    );
    assert_eq!(r.err(), Some(CatalogError::DuplicateId("x".into())));
}

#[test]
fn catalog_lookups() {
    let c = small_catalog();
    assert_eq!(c.get("orca").unwrap().category, "agents");
    assert_eq!(c.category_title("agents"), "Agents & ADEs");
    assert_eq!(c.category_title("missing"), "missing");
    assert!(c.get("nope").is_none());
    let agents: Vec<&str> = c.items_in("agents").iter().map(|i| i.id.as_str()).collect();
    assert_eq!(agents, vec!["orca", "amp"]);
    assert_eq!(c.always_ids(), vec!["bat"]);
    let sel: Vec<&str> = c.selectable_categories().iter().map(|c| c.id.as_str()).collect();
    assert_eq!(sel, vec!["terminals", "agents"]);
}

#[test]
fn flag_notes_join_with_semicolons() {
    let mut it = item("orca", "agents", false);
    assert_eq!(it.flag_notes(), "");
    it.flags = vec![Flag::Paid];
    assert_eq!(it.flag_notes(), "costs money or needs a paid plan");
    it.flags = vec![Flag::Paid, Flag::Account];
    assert_eq!(it.flag_notes(), "costs money or needs a paid plan; needs an account / sign-in");
}

#[test]
fn labels_badges_and_probes() {
    assert_eq!(Kind::Mas.label(), "App Store");
    assert_eq!(Kind::Curl.label(), "script");
    assert_eq!(Flag::Paid.badge(), "paid");
    assert_eq!(Flag::Large.note(), "large download (can be several GB)");
    let mut c = item("cursor", "a", false);
    assert_eq!(c.probe_command(), "cursor-agent");
    c.id = "rg".into();
    assert_eq!(c.probe_command(), "rg");
    assert_eq!(BrewKind::Cask.label(), "cask");
}

#[test]
fn conf_roundtrips_through_bash_shape() {
    let c = small_catalog();
    let mut sel = Selection::from_defaults(&c);
    assert!(sel.is_selected("ghostty"));
    assert!(sel.is_selected("bat"));
    assert!(!sel.is_selected("rio"));
    sel.theme = "gruvbox".into();
    sel.toggles.schedule = true;
    sel.add_custom(&Custom {
        name: "htop".into(),
        cask: false,
    });
    sel.add_custom(&Custom {
        name: "google-chrome".into(),
        cask: true,
    });

    let rendered = sel.render_conf("test");
    assert!(rendered.contains("NEWMAC_SELECTED=\" "));
    assert!(rendered.contains(" \"\n") || rendered.contains(" \"\r\n"));
    assert!(rendered.contains("NEWMAC_THEME=gruvbox"));
    assert!(rendered.contains("NEWMAC_TOGGLE_SCHEDULE=1"));
    assert!(rendered.contains("NEWMAC_EXTRA_BREW=\"htop\""));
    assert!(rendered.contains("NEWMAC_EXTRA_CASK=\"google-chrome\""));

    let parsed = Selection::parse_conf(&rendered);
    assert_eq!(parsed.selected, sel.selected);
    assert_eq!(parsed.theme, "gruvbox");
    assert!(parsed.toggles.schedule);
    assert_eq!(parsed.extra_brew, vec!["htop"]);
    assert_eq!(parsed.extra_cask, vec!["google-chrome"]);
    assert_eq!(parsed, sel);
}

#[test]
fn render_conf_exact_text() {
    let mut sel = Selection::default();
    sel.set("zed", true);
    sel.set("bat", true);
    let text = sel.render_conf("t");
    assert_eq!(
        text,
        "# newmac.conf — generated by t\n\
         # Edit by hand or re-run: newmac configure\n\
         NEWMAC_SELECTED=\" bat zed \"\n\
         NEWMAC_THEME=tokyonight\n\
         NEWMAC_TOGGLE_RICING=1\n\
         NEWMAC_TOGGLE_MACOS_DEFAULTS=1\n\
         NEWMAC_TOGGLE_POWER=1\n\
         NEWMAC_TOGGLE_SCHEDULE=0\n\
         NEWMAC_TOGGLE_DOCK=1\n"
    );
}

#[test]
fn selected_membership_uses_space_padding() {
    let mut sel = Selection::default();
    sel.set("bat", true);
    let rendered = sel.render_conf("t");
    let line = rendered
        .lines()
        .find(|l| l.starts_with("NEWMAC_SELECTED="))
        .unwrap();
    let value = line
        .trim_start_matches("NEWMAC_SELECTED=")
        .trim_matches('"');
    assert!(value.contains(" bat "));
}

#[test]
fn custom_dedup() {
    let mut sel = Selection::default();
    assert!(sel.add_custom(&Custom {
        name: "htop".into(),
        cask: false
    }));
    assert!(!sel.add_custom(&Custom {
        name: "htop".into(),
        cask: false
    }));
    assert_eq!(sel.extra_brew.len(), 1);
    sel.remove_custom("htop", false);
    assert!(sel.extra_brew.is_empty());
}

#[test]
fn toggle_twice_restores() {
    let mut sel = Selection::default();
    sel.toggle("fd");
    assert!(sel.is_selected("fd"));
    sel.toggle("fd");
    assert!(!sel.is_selected("fd"));
    assert_eq!(sel, Selection::default());
}

#[test]
fn junk_lines_change_nothing_in_a_conf() {
    let base = "NEWMAC_SELECTED=\"bat fd\"\nNEWMAC_THEME=nord\nNEWMAC_TOGGLE_POWER=0\n";
    let with_junk = "# a comment\nNEWMAC_SELECTED=\"bat fd\"\n\n  \nNEWMAC_THEME=nord\n\
                     no equals here\nNEWMAC_UNKNOWN=1\nNEWMAC_TOGGLE_POWER=0\n   # indented\n";
    assert_eq!(Selection::parse_conf(with_junk), Selection::parse_conf(base));
    assert_eq!(Selection::parse_conf(""), Selection::default());
    assert_eq!(Selection::parse_conf("# only\n\nno key\nOTHER=1\n"), Selection::default());
}

#[test]
fn parse_conf_reads_quotes_comments_and_unknown_keys() {
    let text = "# header\n\
                \n\
                NEWMAC_SELECTED=\"  rg   fd \"\n\
                NEWMAC_THEME='nord'\n\
                NEWMAC_GLASS=yes\n\
                NEWMAC_TOGGLE_RICING=0\n\
                NEWMAC_TOGGLE_DOCK = off \n\
                NEWMAC_SOMETHING_NEW=1\n\
                garbage line without equals\n\
                NEWMAC_EXTRA_CASK=\"a b\"\r\n";
    let s = Selection::parse_conf(text);
    assert!(s.is_selected("rg") && s.is_selected("fd"));
    assert_eq!(s.selected.len(), 2);
    assert_eq!(s.theme, "nord");
    assert!(s.glass);
    assert!(!s.toggles.ricing);
    assert!(!s.toggles.dock);
    assert!(s.toggles.power, "missing keys keep their defaults");
    assert_eq!(s.extra_cask, vec!["a", "b"]);
    assert!(s.extra_brew.is_empty());
}

#[test]
fn unquote_and_as_bool() {
    assert_eq!(unquote(" \"x y\" "), "x y");
    assert_eq!(unquote("'q'"), "q");
    assert_eq!(unquote("\"mixed'"), "\"mixed'");
    assert_eq!(unquote("\""), "\"");
    assert!(as_bool(" true "));
    assert!(as_bool("on"));
    assert!(as_bool("1 "));
    assert!(!as_bool("TRUE"));
    assert!(as_bool("1"));
}

#[test]
fn defaults_match_bash() {
    let t = Toggles::default();
    assert_eq!(
        (t.ricing, t.macos_defaults, t.power, t.schedule, t.dock),
        (true, true, true, false, true)
    );
    let s = Selection::default();
    assert_eq!(s.theme, "tokyonight");
    assert!(!s.glass);
    assert_eq!(default_theme(), "tokyonight");
}

fn flavour(id: &str, ids: &[&str]) -> Flavour {
    Flavour {
        id: id.into(),
        title: id.to_uppercase(),
        desc: format!("{id} setup"),
        theme: "nord".into(),
        glass: true,
        ricing: true,
        macos_defaults: false,
        power: true,
        schedule: false,
        dock: true,
        ids: ids.iter().map(|s| s.to_string()).collect(),
    }
}

#[test]
fn from_flavour_seeds_selection_theme_and_glass_small() {
    let c = small_catalog();
    let jack = flavour("jack", &["rio", "amp", "not-in-catalog"]);
    assert_eq!(jack.unknown_ids(&c), vec!["not-in-catalog"]);
    let sel = Selection::from_flavour(&c, &jack);
    assert!(sel.is_selected("rio"));
    assert!(sel.is_selected("amp"));
    assert!(!sel.is_selected("ghostty"));
    assert!(!sel.is_selected("not-in-catalog"));
    assert_eq!(sel.theme, "nord");
    assert!(sel.glass);
    assert!(sel.toggles.ricing && !sel.toggles.macos_defaults);
    let conf = sel.render_conf("t");
    assert!(conf.contains("NEWMAC_GLASS=1"));
    assert!(Selection::parse_conf(&conf).glass);
}

#[test]
fn flavours_order_jack_then_alphabetical() {
    let fs = vec![
        flavour("webdev", &[]),
        flavour("basic", &[]),
        flavour("ai", &[]),
        flavour("jack", &[]),
        flavour("rice", &[]),
    ];
    let ids: Vec<String> = order(fs).into_iter().map(|f| f.id).collect();
    assert_eq!(ids, vec!["jack", "ai", "basic", "rice", "webdev"]);
}

#[test]
fn flavours_with_one_id_keep_their_order() {
    let mut first = flavour("rice", &[]);
    first.title = "first".into();
    let mut second = flavour("rice", &[]);
    second.title = "second".into();
    let fs = vec![first, flavour("jack", &[]), second, flavour("ai", &[])];
    let got: Vec<(String, String)> = order(fs).into_iter().map(|f| (f.id, f.title)).collect();
    assert_eq!(
        got,
        vec![
            ("jack".to_string(), "JACK".to_string()),
            ("ai".to_string(), "AI".to_string()),
            ("rice".to_string(), "first".to_string()),
            ("rice".to_string(), "second".to_string()),
        ]
    );
}

#[test]
fn fuzzy_rank_scores_and_orders() {
    let mut s = Searcher::new();
    let cands = vec![(0usize, "Docker containers"), (1, "Firefox browser"), (2, "docker-compose")];
    let ranked = s.rank("dockr", cands.clone());
    assert!(!ranked.is_empty());
    assert!(ranked.iter().all(|(i, _)| *i == 0 || *i == 2));
    for w in ranked.windows(2) {
        assert!(w[0].1 >= w[1].1);
    }
    let all = s.rank("", cands.clone());
    assert_eq!(all, vec![(0, 0), (1, 0), (2, 0)]);
    assert_eq!(s.score("", "anything"), Some(0));
    assert_eq!(s.score("zzzz", "firefox"), None);
}

#[test]
fn rank_scored_is_stable_by_score() {
    let scored = vec![(0u8, Some(5)), (1, None), (2, Some(9)), (3, Some(5)), (4, Some(9))];
    assert_eq!(
        rank_scored(&scored, false),
        vec![(2, 9), (4, 9), (0, 5), (3, 5)]
    );
    assert_eq!(rank_scored(&scored, true), vec![(0, 5), (2, 9), (3, 5), (4, 9)]);
}

#[test]
fn item_haystack_joins_name_id_description() {
    let it = item("fd", "a", false);
    assert_eq!(haystack(&it), "FD fd the fd tool");
    let p = Package {
        name: "htop".into(),
        desc: "process viewer".into(),
        kind: BrewKind::Formula,
        installs: None,
    };
    assert_eq!(p.haystack(), "htop process viewer");
}

fn raw(id: &str, accent: &str) -> RawTheme {
    RawTheme {
        id: id.into(),
        title: id.into(),
        ghostty: id.into(),
        base: "#000000".into(),
        surface: "#111111".into(),
        text: "#ffffff".into(),
        subtext: "#eeeeee".into(),
        accent: accent.into(),
        accent2: "#010203".into(),
        red: "#ff0000".into(),
        green: "#00ff00".into(),
        yellow: "#ffff00".into(),
        blue: "#0000ff".into(),
    }
}

#[test]
fn hex_colours_parse() {
    assert_eq!(Rgb::parse("#bb9af7"), Rgb { r: 0xbb, g: 0x9a, b: 0xf7 });
    assert_eq!(Rgb::parse("##0a0B0c"), Rgb { r: 10, g: 11, b: 12 });
    assert_eq!(Rgb::parse("nothex"), Rgb { r: 0, g: 0, b: 0 });
    assert_eq!(parse_hex("+ff"), Some(255));
    assert_eq!(parse_hex("+"), None);
    assert_eq!(parse_hex(""), None);
    assert_eq!(parse_hex("-1"), None);
    assert_eq!(parse_hex("ffffffff"), Some(u32::MAX));
    assert_eq!(parse_hex("100000000"), None);
}

#[test]
fn themes_sort_tokyonight_first_small() {
    let mut ts = vec![
        build(raw("nord", "#88c0d0")),
        build(raw("tokyonight", "#bb9af7")),
        build(raw("gruvbox", "#fabd2f")),
    ];
    sort_tokyonight_first(&mut ts);
    let ids: Vec<&str> = ts.iter().map(|t| t.id.as_str()).collect();
    assert_eq!(ids, vec!["tokyonight", "gruvbox", "nord"]);
    let tn = &ts[0];
    assert_eq!((tn.accent.r, tn.accent.g, tn.accent.b), (0xbb, 0x9a, 0xf7));
    assert_eq!(tn.swatches().len(), 6);
    assert_eq!(tn.swatches()[1], Rgb { r: 1, g: 2, b: 3 });
}

#[test]
fn themes_with_one_id_keep_their_order() {
    let mut ts = vec![
        build(raw("nord", "#000001")),
        build(raw("tokyonight", "#bb9af7")),
        build(raw("nord", "#000002")),
        build(raw("gruvbox", "#fabd2f")),
    ];
    sort_tokyonight_first(&mut ts);
    let ids: Vec<&str> = ts.iter().map(|t| t.id.as_str()).collect();
    assert_eq!(ids, vec!["tokyonight", "gruvbox", "nord", "nord"]);
    assert_eq!(ts[2].accent.b, 1);
    assert_eq!(ts[3].accent.b, 2);
}

#[test]
fn theme_sh_is_read() {
    let text = "# Nord\nTHEME_TITLE=\"Nord\"\nT_BASE=\"2e3440\"   # nord0\nT_SURFACE='3b4252'\n\
                T_TEXT=eceff4\nT_SUBTEXT=d8dee9\nT_ACCENT=88c0d0\nT_ACCENT2=81a1c1\n\
                T_RED=bf616a\nT_GREEN=a3be8c\nT_YELLOW=ebcb8b\nT_BLUE=5e81ac\n";
    let t = parse_theme_sh("nord", text).expect("complete theme");
    assert_eq!(t.id, "nord");
    assert_eq!(t.title, "Nord");
    assert_eq!(t.ghostty, "nord");
    assert_eq!(t.base, "2e3440");
    assert_eq!(t.surface, "3b4252");
    // a `#` starts the comment, so a value written `"#abc"` reads as empty
    let odd = parse_theme_sh("odd", &text.replace("T_RED=bf616a", "T_RED=\"#bf616a\"")).unwrap();
    assert_eq!(odd.red, "");
    let th = build(t);
    assert_eq!(th.accent, Rgb { r: 0x88, g: 0xc0, b: 0xd0 });
    assert!(parse_theme_sh("half", "T_BASE=#000000\n").is_none());
}

#[test]
fn brew_lists() {
    let f = vec![
        RawPkg { name: "htop".into(), desc: "viewer".into() },
        RawPkg { name: "htop".into(), desc: "again".into() },
        RawPkg { name: "git".into(), desc: "vcs".into() },
    ];
    let c = vec![RawPkg { name: "htop".into(), desc: "the cask".into() }];
    let pkgs = bundled_from(&f, &c);
    let names: Vec<(String, BrewKind)> = pkgs.iter().map(|p| (p.name.clone(), p.kind)).collect();
    assert_eq!(
        names,
        vec![
            ("htop".to_string(), BrewKind::Formula),
            ("git".to_string(), BrewKind::Formula),
            ("htop".to_string(), BrewKind::Cask)
        ]
    );
    assert_eq!(pkgs[0].desc, "viewer");

    assert_eq!(parse_count("1,234"), Some(1234));
    assert_eq!(parse_count("n/a"), None);
    assert_eq!(parse_count("99999999999999999999"), None);

    let items = vec![
        AnalyticsItem { formula: Some("openssl@3 extra".into()), cask: None, count: "12,000".into() },
        AnalyticsItem { formula: None, cask: Some("zed".into()), count: "1".into() },
        AnalyticsItem { formula: Some("git".into()), cask: None, count: "x".into() },
        AnalyticsItem { formula: Some("htop".into()), cask: None, count: "5".into() },
    ];
    let ranked = ranked_packages(&items, BrewKind::Formula, 2, &pkgs);
    assert_eq!(ranked.len(), 2);
    assert_eq!(ranked[0].name, "openssl@3");
    assert_eq!(ranked[0].installs, Some(12000));
    assert_eq!(ranked[0].desc, "");
    assert_eq!(ranked[1].name, "git");
    assert_eq!(ranked[1].desc, "vcs");
    assert_eq!(ranked[1].installs, None);

    let casks = ranked_packages(&items, BrewKind::Cask, 10, &pkgs);
    assert_eq!(casks.len(), 1);
    let merged = merge_refresh(ranked.clone(), vec![ranked[1].clone(), casks[0].clone()]);
    assert_eq!(merged.len(), 3);

    let mut dup = vec![casks[0].clone(), casks[0].clone()];
    dedupe(&mut dup);
    assert_eq!(dup.len(), 1);
}

#[test]
fn presets_script_is_rendered() {
    let mut jack = flavour("jack", &["rio", "aerospace"]);
    jack.title = "Jack's setup".into();
    jack.desc = "what Jack runs".into();
    let expected = String::from(PRESETS_HEADER)
        + "NEWMAC_PRESETS=\"default jack\"\n\n"
        + "newmac_preset_title() {\n  case \"$1\" in\n    default) echo \"Balanced\" ;;\n    jack) echo \"Jack's setup\" ;;\n    *) echo \"$1\" ;;\n  esac\n}\n\n"
        + "newmac_preset_desc() {\n  case \"$1\" in\n    default) echo \"The catalog defaults — every category at its sensible default\" ;;\n    jack) echo \"what Jack runs\" ;;\n    *) echo \"\" ;;\n  esac\n}\n\n"
        + "newmac_preset_ids() {\n  case \"$1\" in\n    jack) echo \"rio aerospace\" ;;\n    *) echo \"\" ;;\n  esac\n}\n\n"
        + "newmac_preset_toggles() {\n  case \"$1\" in\n    jack) echo \"1 0 1 0 1\" ;;\n    *) echo \"1 1 1 0 1\" ;;\n  esac\n}\n\n"
        + "newmac_preset_theme() {\n  case \"$1\" in\n    jack) echo \"nord\" ;;\n    *) echo \"\" ;;\n  esac\n}\n\n"
        + "newmac_preset_glass() {\n  case \"$1\" in\n    jack) echo \"1\" ;;\n    *) echo \"0\" ;;\n  esac\n}\n";
    assert_eq!(render_presets(&[jack]), expected);
    assert!(render_presets(&[]).contains("NEWMAC_PRESETS=\"default\"\n"));
}

#[test]
fn empty_or_missing_conf_falls_back_to_defaults() {
    let c = small_catalog();
    let none = Selection::load_or_defaults(&c, None);
    assert!(none.is_selected("ghostty") && none.is_selected("amp") && !none.is_selected("rio"));
    let blank = Selection::load_or_defaults(&c, Some("NEWMAC_THEME=nord\n"));
    assert!(blank.is_selected("ghostty"));
    assert_eq!(blank.theme, "tokyonight");
    let picked = Selection::load_or_defaults(&c, Some("NEWMAC_SELECTED=\" rio \"\nNEWMAC_THEME=nord\n"));
    assert!(picked.is_selected("rio") && !picked.is_selected("ghostty"));
    assert_eq!(picked.theme, "nord");
}

#[test]
fn live_list_joins_both_feeds() {
    let row = |f: Option<&str>, c: Option<&str>, n: &str| AnalyticsItem {
        formula: f.map(String::from),
        cask: c.map(String::from),
        count: n.into(),
    };
    let formula_rows = vec![
        row(Some("openssl@3 --with-x"), None, "1,200"),
        row(Some("htop"), None, "900"),
        row(Some("wget"), None, "800"),
    ];
    let cask_rows = vec![row(None, Some("firefox"), "50"), row(None, Some("firefox"), "40")];
    let known = vec![Package {
        name: "htop".into(),
        desc: "process viewer".into(),
        kind: BrewKind::Formula,
        installs: None,
    }];
    let list = live_refresh(&formula_rows, &cask_rows, 2, &known);
    let names: Vec<(&str, BrewKind, Option<u64>)> =
        list.iter().map(|p| (p.name.as_str(), p.kind, p.installs)).collect();
    assert_eq!(
        names,
        vec![
            ("openssl@3", BrewKind::Formula, Some(1200)),
            ("htop", BrewKind::Formula, Some(900)),
            ("firefox", BrewKind::Cask, Some(50)),
        ]
    );
    assert_eq!(list[1].desc, "process viewer");
    assert_eq!(list[0].desc, "");
}


#[test]
fn render_conf_matches_the_bash_shape() {
    let mut sel = Selection::default();
    sel.set("bat", true);
    sel.theme = "gruvbox".into();
    sel.toggles.schedule = true;
    sel.add_custom(&Custom {
        name: "htop".into(),
        cask: false,
    });
    sel.add_custom(&Custom {
        name: "google-chrome".into(),
        cask: true,
    });
    assert_eq!(
        sel.render_conf("test"),
        "# newmac.conf — generated by test\n# Edit by hand or re-run: newmac configure\n\
         NEWMAC_SELECTED=\" bat \"\nNEWMAC_THEME=gruvbox\nNEWMAC_TOGGLE_RICING=1\n\
         NEWMAC_TOGGLE_MACOS_DEFAULTS=1\nNEWMAC_TOGGLE_POWER=1\nNEWMAC_TOGGLE_SCHEDULE=1\n\
         NEWMAC_TOGGLE_DOCK=1\nNEWMAC_EXTRA_BREW=\"htop\"\nNEWMAC_EXTRA_CASK=\"google-chrome\"\n"
    );
    sel.glass = true;
    let text = sel.render_conf("test");
    assert!(text.contains("NEWMAC_THEME=gruvbox\nNEWMAC_GLASS=1\nNEWMAC_TOGGLE_RICING=1\n"));
    assert_eq!(Selection::parse_conf(&text), sel);
}
