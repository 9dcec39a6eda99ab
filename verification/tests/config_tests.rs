use emu_frontend::config::{
    CmdTemplate, ConfigFile, SaveError, default_config, merge_config, save_error_message,
    user_config_path,
};

fn tmpl(program: &str, args: &[&str], exts: Option<&[&str]>, vis: Option<&[&str]>) -> CmdTemplate {
    CmdTemplate {
        program: program.to_string(),
        args: args.iter().map(|s| s.to_string()).collect(),
        extensions: exts.map(|v| v.iter().map(|s| s.to_string()).collect()),
        visible_extensions: vis.map(|v| v.iter().map(|s| s.to_string()).collect()),
    }
}

fn empty_doc() -> ConfigFile {
    ConfigFile {
        default: None,
        systems: None,
        show_empty_systems: None,
        controller_map: None,
        default_roms_path: None,
        font_path: None,
    }
}

#[test]
fn default_config_values() {
    let cfg = default_config();
    let d = cfg.default.expect("built-in default template");
    assert_eq!(d.program, "mgba-qt");
    assert_eq!(d.args, vec!["{rom}".to_string()]);
    assert!(d.extensions.is_none());
    assert!(d.visible_extensions.is_none());
    assert!(cfg.systems.is_none());
    assert_eq!(cfg.show_empty_systems, Some(false));
    assert!(cfg.controller_map.is_none());
    assert!(cfg.default_roms_path.is_none());
    assert!(cfg.font_path.is_none());
}

#[test]
fn merge_single_field_keeps_others() {
    let mut cfg = default_config();
    let mut doc = empty_doc();
    doc.systems = Some(vec![("nes".to_string(), tmpl("fceux", &["{rom}"], None, None))]);
    merge_config(&mut cfg, doc);
    // the one present field overrides
    let systems = cfg.systems.as_ref().expect("systems set");
    assert_eq!(systems.len(), 1);
    assert_eq!(systems[0].0, "nes");
    assert_eq!(systems[0].1.program, "fceux");
    // every other field keeps the built-in default
    assert_eq!(cfg.default.as_ref().unwrap().program, "mgba-qt");
    assert_eq!(cfg.show_empty_systems, Some(false));
    assert!(cfg.controller_map.is_none());
    assert!(cfg.default_roms_path.is_none());
    assert!(cfg.font_path.is_none());
}

#[test]
fn merge_all_absent_changes_nothing() {
    let mut cfg = default_config();
    merge_config(&mut cfg, empty_doc());
    assert_eq!(cfg.default.as_ref().unwrap().program, "mgba-qt");
    assert_eq!(cfg.show_empty_systems, Some(false));
    assert!(cfg.systems.is_none());
}

#[test]
fn merge_all_present_round_trip() {
    // a configuration whose optional fields are all present survives a
    // save/load round trip: loading merges it over any defaults and every
    // field of the document wins
    let full = ConfigFile {
        default: Some(tmpl("mednafen", &["-fs", "{rom}"], None, None)),
        systems: Some(vec![
            ("nes".to_string(), tmpl("fceux", &["{rom}"], Some(&["nes"]), Some(&["nes"]))),
            ("gba".to_string(), tmpl("mgba-qt", &["{rom}"], Some(&["gba"]), None)),
        ]),
        show_empty_systems: Some(true),
        controller_map: Some(vec![("A".to_string(), "controller:A".to_string())]),
        default_roms_path: Some("/srv/roms".to_string()),
        font_path: Some("/usr/share/fonts/x.ttf".to_string()),
    };
    let mut loaded = default_config();
    merge_config(&mut loaded, full.clone());
    assert_eq!(loaded.default.as_ref().unwrap().program, "mednafen");
    assert_eq!(loaded.default.as_ref().unwrap().args, vec!["-fs".to_string(), "{rom}".to_string()]);
    let systems = loaded.systems.as_ref().unwrap();
    assert_eq!(systems.len(), 2);
    assert_eq!(systems[0].0, "nes");
    assert_eq!(systems[1].0, "gba");
    assert_eq!(systems[0].1.extensions, Some(vec!["nes".to_string()]));
    assert_eq!(loaded.show_empty_systems, Some(true));
    assert_eq!(
        loaded.controller_map,
        Some(vec![("A".to_string(), "controller:A".to_string())])
    );
    assert_eq!(loaded.default_roms_path, Some("/srv/roms".to_string()));
    assert_eq!(loaded.font_path, Some("/usr/share/fonts/x.ttf".to_string()));
}

#[test]
fn config_path_prefers_override_root() {
    let p = user_config_path(Some("/xdg".to_string()), Some("/home/u".to_string()));
    assert_eq!(p, Some("/xdg/rpi_emulator_frontend/config.toml".to_string()));
}

#[test]
fn config_path_falls_back_to_home() {
    let p = user_config_path(None, Some("/home/u".to_string()));
    assert_eq!(p, Some("/home/u/.config/rpi_emulator_frontend/config.toml".to_string()));
}

#[test]
fn config_path_none_without_roots() {
    assert_eq!(user_config_path(None, None), None);
}

#[test]
fn save_error_messages() {
    assert_eq!(save_error_message(&SaveError::NoConfigPath), "No config path available");
    assert_eq!(
        save_error_message(&SaveError::CreateDir("denied".to_string())),
        "Failed to create config dir: denied"
    );
    assert_eq!(
        save_error_message(&SaveError::Serialize("bad".to_string())),
        "Failed to serialize config: bad"
    );
    assert_eq!(
        save_error_message(&SaveError::WriteTemp("full".to_string())),
        "Failed writing tmp config: full"
    );
    assert_eq!(
        save_error_message(&SaveError::Rename("busy".to_string())),
        "Failed renaming config: busy"
    );
}
