use emu_frontend::config::{CmdTemplate, ConfigFile};
use emu_frontend::scan::{find_system_for_extension, scan_grouped};

fn template(program: &str, exts: Option<&[&str]>, vis: Option<&[&str]>) -> CmdTemplate {
    CmdTemplate {
        program: program.to_string(),
        args: vec!["{rom}".to_string()],
        extensions: exts.map(|v| v.iter().map(|s| s.to_string()).collect()),
        visible_extensions: vis.map(|v| v.iter().map(|s| s.to_string()).collect()),
    }
}

fn config_with(systems: Vec<(&str, CmdTemplate)>) -> ConfigFile {
    ConfigFile {
        default: None,
        systems: Some(systems.into_iter().map(|(k, t)| (k.to_string(), t)).collect()),
        show_empty_systems: Some(false),
        controller_map: None,
        default_roms_path: None,
        font_path: None,
    }
}

fn strings(v: &[&str]) -> Vec<String> {
    v.iter().map(|s| s.to_string()).collect()
}

#[test]
fn scan_groups_by_first_segment() {
    let cfg = config_with(vec![("nes", template("fceux", None, None))]);
    let files = strings(&["nes/game.nes", "nes/alpha.nes", "snes/other.sfc", "loose.nes"]);
    let index = scan_grouped(&files, &cfg);
    assert_eq!(index.len(), 1);
    assert_eq!(index[0].0, "nes");
    // sorted lexicographically, unconfigured systems dropped
    assert_eq!(index[0].1, strings(&["nes/alpha.nes", "nes/game.nes"]));
}

#[test]
fn scan_end_to_end_single_item() {
    let cfg = config_with(vec![("nes", template("fceux", Some(&["nes"]), None))]);
    let files = strings(&["nes/game.nes"]);
    let index = scan_grouped(&files, &cfg);
    assert_eq!(index.len(), 1);
    assert_eq!(index[0].0, "nes");
    assert_eq!(index[0].1, strings(&["nes/game.nes"]));
}

#[test]
fn scan_is_order_stable() {
    let cfg = config_with(vec![
        ("nes", template("fceux", None, None)),
        ("gba", template("mgba-qt", None, None)),
    ]);
    let walk1 = strings(&["nes/b.nes", "gba/z.gba", "nes/a.nes", "gba/a.gba"]);
    let walk2 = strings(&["gba/a.gba", "nes/a.nes", "gba/z.gba", "nes/b.nes"]);
    let index1 = scan_grouped(&walk1, &cfg);
    let index2 = scan_grouped(&walk2, &cfg);
    assert_eq!(index1, index2);
    // and re-scanning the same listing is idempotent
    let again = scan_grouped(&walk1, &cfg);
    assert_eq!(index1, again);
    assert_eq!(index1[0].0, "nes");
    assert_eq!(index1[0].1, strings(&["nes/a.nes", "nes/b.nes"]));
    assert_eq!(index1[1].0, "gba");
    assert_eq!(index1[1].1, strings(&["gba/a.gba", "gba/z.gba"]));
}

#[test]
fn scan_ignores_archives() {
    let cfg = config_with(vec![("nes", template("fceux", None, None))]);
    let files = strings(&["nes/game.ZIP", "nes/other.7z", "nes/keep.nes"]);
    let index = scan_grouped(&files, &cfg);
    assert_eq!(index.len(), 1);
    assert_eq!(index[0].1, strings(&["nes/keep.nes"]));
}

#[test]
fn scan_respects_visible_extensions() {
    let cfg = config_with(vec![("nes", template("fceux", None, Some(&["NES"])))]);
    let files = strings(&["nes/a.nes", "nes/b.sav", "nes/noext"]);
    let index = scan_grouped(&files, &cfg);
    assert_eq!(index.len(), 1);
    // the filter compares case-insensitively, and a file without an
    // extension is dropped when a visible list is set
    assert_eq!(index[0].1, strings(&["nes/a.nes"]));
}

#[test]
fn scan_folds_directory_case() {
    let cfg = config_with(vec![("nes", template("fceux", None, None))]);
    let files = strings(&["NES/game.nes"]);
    let index = scan_grouped(&files, &cfg);
    assert_eq!(index.len(), 1);
    assert_eq!(index[0].0, "nes");
    assert_eq!(index[0].1, strings(&["NES/game.nes"]));
}

#[test]
fn scan_drops_empty_groups() {
    let cfg = config_with(vec![
        ("nes", template("fceux", None, None)),
        ("gba", template("mgba-qt", None, None)),
    ]);
    let files = strings(&["gba/a.gba"]);
    let index = scan_grouped(&files, &cfg);
    assert_eq!(index.len(), 1);
    assert_eq!(index[0].0, "gba");
}

#[test]
fn resolution_earlier_system_wins() {
    // two systems claim the same extension: the one earlier in the display
    // order always wins
    let cfg = config_with(vec![
        ("snes", template("bsnes", Some(&["sfc", "bin"]), None)),
        ("genesis", template("blastem", Some(&["bin", "md"]), None)),
    ]);
    let order = strings(&["snes", "genesis"]);
    assert_eq!(find_system_for_extension("bin", &cfg, &order), Some("snes".to_string()));
    let reversed = strings(&["genesis", "snes"]);
    assert_eq!(find_system_for_extension("bin", &cfg, &reversed), Some("genesis".to_string()));
}

#[test]
fn resolution_is_case_insensitive() {
    // would fail if case folding handed its argument back unchanged
    let cfg = config_with(vec![("nes", template("fceux", Some(&["nes"]), None))]);
    let order = strings(&["nes"]);
    assert_eq!(find_system_for_extension("NES", &cfg, &order), Some("nes".to_string()));
}

#[test]
fn resolution_unknown_extension() {
    let cfg = config_with(vec![("nes", template("fceux", Some(&["nes"]), None))]);
    let order = strings(&["nes"]);
    assert_eq!(find_system_for_extension("iso", &cfg, &order), None);
}
