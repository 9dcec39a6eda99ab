use emu_frontend::browse::{
    LaunchDecision, clamp_scroll, compute_system_order, elide_middle, nav_down, nav_up,
    next_system_index, prev_system_index, resolve_launch, restore_selection, roms_dir_choice,
    visible_rows,
};
use emu_frontend::config::{CmdTemplate, ConfigFile};
use emu_frontend::scan::scan_grouped;
use emu_frontend::supervisor::build_launch_args;

fn template(program: &str, exts: Option<&[&str]>) -> CmdTemplate {
    CmdTemplate {
        program: program.to_string(),
        args: vec!["--fullscreen".to_string(), "{rom}".to_string()],
        extensions: exts.map(|v| v.iter().map(|s| s.to_string()).collect()),
        visible_extensions: None,
    }
}

fn config_with(systems: Vec<(&str, CmdTemplate)>, show_empty: bool) -> ConfigFile {
    ConfigFile {
        default: None,
        systems: Some(systems.into_iter().map(|(k, t)| (k.to_string(), t)).collect()),
        show_empty_systems: Some(show_empty),
        controller_map: None,
        default_roms_path: None,
        font_path: None,
    }
}

fn strings(v: &[&str]) -> Vec<String> {
    v.iter().map(|s| s.to_string()).collect()
}

#[test]
fn visible_rows_floor_of_one() {
    assert_eq!(visible_rows(30), 1);
    assert_eq!(visible_rows(200), 1);
    assert_eq!(visible_rows(1080), 6);
}

#[test]
fn navigation_up_down() {
    assert_eq!(nav_up(0, 0), (0, 0));
    assert_eq!(nav_up(3, 3), (2, 2));
    assert_eq!(nav_up(3, 1), (2, 1));
    assert_eq!(nav_down(0, 0, 1, 4), (0, 0));
    assert_eq!(nav_down(1, 0, 10, 4), (2, 0));
    // moving past the last visible row scrolls by one
    assert_eq!(nav_down(3, 0, 10, 4), (4, 1));
}

#[test]
fn system_switching_wraps() {
    assert_eq!(prev_system_index(2, 3), 1);
    assert_eq!(prev_system_index(0, 3), 2);
    assert_eq!(prev_system_index(0, 0), 0);
    assert_eq!(next_system_index(0, 3), 1);
    assert_eq!(next_system_index(2, 3), 0);
}

#[test]
fn scroll_clamps_to_list() {
    assert_eq!(clamp_scroll(5, 3), 2);
    assert_eq!(clamp_scroll(1, 3), 1);
    assert_eq!(clamp_scroll(5, 0), 5);
}

#[test]
fn roms_dir_preference_order() {
    assert_eq!(
        roms_dir_choice(Some("/arg".to_string()), Some("/cfg".to_string())),
        "/arg"
    );
    assert_eq!(roms_dir_choice(None, Some("/cfg".to_string())), "/cfg");
    assert_eq!(roms_dir_choice(None, None), "./roms");
}

#[test]
fn elide_middle_keeps_short_names() {
    assert_eq!(elide_middle("short.nes", 20), "short.nes");
}

#[test]
fn elide_middle_cuts_long_names() {
    assert_eq!(elide_middle("abcdefghijklmno", 9), "abc...mno");
    assert_eq!(elide_middle("abcdefghijklmno", 8), "abc...no");
    assert_eq!(elide_middle("abcdefgh", 3), "...");
}

#[test]
fn system_order_skips_empty_systems() {
    let cfg = config_with(
        vec![("nes", template("fceux", None)), ("gba", template("mgba-qt", None))],
        false,
    );
    let files = strings(&["gba/a.gba"]);
    let index = scan_grouped(&files, &cfg);
    let order = compute_system_order(&cfg, &index);
    assert_eq!(order, strings(&["gba"]));
}

#[test]
fn system_order_shows_empty_when_asked() {
    let cfg = config_with(
        vec![("NES", template("fceux", None)), ("gba", template("mgba-qt", None))],
        true,
    );
    let index = scan_grouped(&strings(&[]), &cfg);
    let order = compute_system_order(&cfg, &index);
    // identifiers are case-folded for display
    assert_eq!(order, strings(&["nes", "gba"]));
}

#[test]
fn selection_restored_after_reload() {
    let order = strings(&["nes", "gba", "snes"]);
    assert_eq!(restore_selection(&order, &Some("gba".to_string())), 1);
    assert_eq!(restore_selection(&order, &Some("md".to_string())), 0);
    assert_eq!(restore_selection(&order, &None), 0);
}

#[test]
fn launch_uses_the_systems_own_template() {
    let cfg = config_with(vec![("nes", template("fceux", None))], false);
    let d = resolve_launch(&cfg, &strings(&["nes"]), "nes", "nes/game.nes");
    match d {
        LaunchDecision::Launch(i) => {
            let systems = cfg.systems.as_ref().unwrap();
            assert_eq!(systems[i].0, "nes");
            assert_eq!(systems[i].1.program, "fceux");
        },
        other => panic!("unexpected decision: {:?}", other),
    }
}

#[test]
fn launch_falls_back_to_extension() {
    let cfg = config_with(vec![("nes", template("fceux", Some(&["nes"])))], false);
    // the selected system has no template of its own; the item's extension
    // resolves to the nes template through the display order
    let order = strings(&["nes"]);
    let d = resolve_launch(&cfg, &order, "collection", "collection/game.NES");
    match d {
        LaunchDecision::Launch(i) => {
            assert_eq!(cfg.systems.as_ref().unwrap()[i].0, "nes");
        },
        other => panic!("unexpected decision: {:?}", other),
    }
}

#[test]
fn launch_without_template_fails_with_message() {
    let cfg = config_with(vec![("nes", template("fceux", Some(&["nes"])))], false);
    let d = resolve_launch(&cfg, &strings(&["nes"]), "arcade", "arcade/game.zip");
    match d {
        LaunchDecision::Fail(m) => {
            assert_eq!(m, "No emulator configured for system arcade")
        },
        other => panic!("unexpected decision: {:?}", other),
    }
}

#[test]
fn launch_ignored_without_system_table() {
    let cfg = ConfigFile {
        default: None,
        systems: None,
        show_empty_systems: None,
        controller_map: None,
        default_roms_path: None,
        font_path: None,
    };
    let d = resolve_launch(&cfg, &strings(&[]), "nes", "nes/game.nes");
    assert!(matches!(d, LaunchDecision::Ignore));
}

#[test]
fn end_to_end_scan_resolve_launch() {
    // a root with nes/game.nes and a config that claims the nes extension:
    // scanning lists it, confirming launches the template with the item's
    // absolute path substituted for the placeholder
    let cfg = ConfigFile {
        default: None,
        systems: Some(vec![(
            "nes".to_string(),
            CmdTemplate {
                program: "fceux".to_string(),
                args: vec!["{rom}".to_string()],
                extensions: Some(vec!["nes".to_string()]),
                visible_extensions: None,
            },
        )]),
        show_empty_systems: Some(false),
        controller_map: None,
        default_roms_path: None,
        font_path: None,
    };
    let files = strings(&["nes/game.nes"]);
    let index = scan_grouped(&files, &cfg);
    assert_eq!(index.len(), 1);
    assert_eq!(index[0].0, "nes");
    assert_eq!(index[0].1, strings(&["nes/game.nes"]));
    let order = compute_system_order(&cfg, &index);
    assert_eq!(order, strings(&["nes"]));
    let decision = resolve_launch(&cfg, &order, &order[0], &index[0].1[0]);
    let i = match decision {
        LaunchDecision::Launch(i) => i,
        other => panic!("unexpected decision: {:?}", other),
    };
    let tmpl = &cfg.systems.as_ref().unwrap()[i].1;
    assert_eq!(tmpl.program, "fceux");
    let abs = format!("/srv/roms/{}", index[0].1[0]);
    let args = build_launch_args(&tmpl.args, &abs);
    assert_eq!(args, vec!["/srv/roms/nes/game.nes".to_string()]);
}
