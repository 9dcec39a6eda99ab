use emu_frontend::config::default_config;
use emu_frontend::menu::{
    MenuEffect, MenuEvent, MenuState, build_menu_items, config_saved_message, open_menu,
    process_menu, remap_actions, remap_saved_message, save_failed_message,
};

fn open_state() -> MenuState {
    open_menu()
}

fn open_at(selected: usize) -> MenuState {
    MenuState::Open { items: build_menu_items(), selected }
}

fn selected_of(state: &MenuState) -> usize {
    match state {
        MenuState::Open { selected, .. } => *selected,
        other => panic!("expected an open menu, got {:?}", other),
    }
}

#[test]
fn menu_items_in_order() {
    let items = build_menu_items();
    assert_eq!(
        items,
        vec![
            "Toggle show_empty_systems".to_string(),
            "Remap controls".to_string(),
            "Reload config".to_string(),
            "Save config".to_string(),
            "Close".to_string(),
            "Exit".to_string(),
        ]
    );
}

#[test]
fn remap_action_list() {
    let actions = remap_actions();
    assert_eq!(actions, vec!["A", "B", "UP", "DOWN", "LEFT", "RIGHT", "START"]);
}

#[test]
fn open_menu_selects_first() {
    assert_eq!(selected_of(&open_state()), 0);
}

#[test]
fn navigation_clamps_at_edges() {
    let mut cfg = default_config();
    // up at the top stays put
    let (s, _, _) = process_menu(open_state(), &MenuEvent::Up, &mut cfg);
    assert_eq!(selected_of(&s), 0);
    // down walks to the last item and stays there
    let mut state = s;
    for _ in 0..10 {
        let (next, _, _) = process_menu(state, &MenuEvent::Down, &mut cfg);
        state = next;
    }
    assert_eq!(selected_of(&state), 5);
    // controller navigation maps to the same moves
    let (s2, _, _) = process_menu(state, &MenuEvent::PadButton("DPadUp".to_string()), &mut cfg);
    assert_eq!(selected_of(&s2), 4);
}

#[test]
fn toggle_flips_flag_and_reports() {
    let mut cfg = default_config();
    let (state, effect, msg) = process_menu(open_state(), &MenuEvent::Activate, &mut cfg);
    assert_eq!(cfg.show_empty_systems, Some(true));
    assert_eq!(effect, MenuEffect::Nothing);
    assert_eq!(msg, Some("show_empty_systems set to true".to_string()));
    // the menu stays open on the same item; a second toggle flips it back
    let (_, _, msg2) = process_menu(state, &MenuEvent::Activate, &mut cfg);
    assert_eq!(cfg.show_empty_systems, Some(false));
    assert_eq!(msg2, Some("show_empty_systems set to false".to_string()));
}

#[test]
fn reload_and_save_request_effects() {
    let mut cfg = default_config();
    let (_, effect, msg) = process_menu(open_at(2), &MenuEvent::Activate, &mut cfg);
    assert_eq!(effect, MenuEffect::Reload);
    assert_eq!(msg, Some("Config reloaded".to_string()));
    let (_, effect2, msg2) = process_menu(open_at(3), &MenuEvent::Activate, &mut cfg);
    assert_eq!(effect2, MenuEffect::Save);
    assert_eq!(msg2, None);
}

#[test]
fn close_and_escape_close_the_menu() {
    let mut cfg = default_config();
    let (s1, e1, _) = process_menu(open_at(4), &MenuEvent::Activate, &mut cfg);
    assert!(matches!(s1, MenuState::Closed));
    assert_eq!(e1, MenuEffect::Nothing);
    let (s2, _, _) = process_menu(open_state(), &MenuEvent::Cancel, &mut cfg);
    assert!(matches!(s2, MenuState::Closed));
    let (s3, _, _) = process_menu(open_state(), &MenuEvent::PadButton("B".to_string()), &mut cfg);
    assert!(matches!(s3, MenuState::Closed));
}

#[test]
fn exit_requests_quit() {
    let mut cfg = default_config();
    let (s, e, _) = process_menu(open_at(5), &MenuEvent::Activate, &mut cfg);
    assert!(matches!(s, MenuState::Closed));
    assert_eq!(e, MenuEffect::Quit);
}

#[test]
fn activating_remap_enters_capture() {
    let mut cfg = default_config();
    let (s, _, _) = process_menu(open_at(1), &MenuEvent::Activate, &mut cfg);
    match s {
        MenuState::Remap { actions, idx, temp_map } => {
            assert_eq!(actions.len(), 7);
            assert_eq!(idx, 0);
            assert!(temp_map.is_empty());
        },
        other => panic!("expected a remap state, got {:?}", other),
    }
}

#[test]
fn joystick_confirm_reaches_remap_and_exit_only() {
    let mut cfg = default_config();
    let (s, _, _) = process_menu(open_at(1), &MenuEvent::JoyButton(0), &mut cfg);
    assert!(matches!(s, MenuState::Remap { .. }));
    let (s2, e2, _) = process_menu(open_at(5), &MenuEvent::JoyButton(0), &mut cfg);
    assert!(matches!(s2, MenuState::Closed));
    assert_eq!(e2, MenuEffect::Quit);
    // on any other item the joystick confirm does nothing
    let (s3, e3, _) = process_menu(open_at(3), &MenuEvent::JoyButton(0), &mut cfg);
    assert_eq!(selected_of(&s3), 3);
    assert_eq!(e3, MenuEffect::Nothing);
}

#[test]
fn remap_captures_all_actions_and_commits() {
    let mut cfg = default_config();
    let (mut state, _, _) = process_menu(open_at(1), &MenuEvent::Activate, &mut cfg);
    // seven captures, mixing both recognized input kinds
    let events = vec![
        MenuEvent::PadButton("A".to_string()),
        MenuEvent::PadButton("B".to_string()),
        MenuEvent::PadButton("DPadUp".to_string()),
        MenuEvent::PadButton("DPadDown".to_string()),
        MenuEvent::JoyButton(4),
        MenuEvent::JoyButton(5),
        MenuEvent::PadButton("Start".to_string()),
    ];
    let mut last_effect = MenuEffect::Nothing;
    for e in events.iter() {
        let (next, effect, _) = process_menu(state, e, &mut cfg);
        state = next;
        last_effect = effect;
    }
    assert!(matches!(state, MenuState::Closed));
    assert_eq!(last_effect, MenuEffect::SaveRemap);
    let map = cfg.controller_map.expect("committed map");
    assert_eq!(map.len(), 7);
    assert_eq!(map[0], ("A".to_string(), "controller:A".to_string()));
    assert_eq!(map[1], ("B".to_string(), "controller:B".to_string()));
    assert_eq!(map[4], ("LEFT".to_string(), "joybutton:4".to_string()));
    assert_eq!(map[6], ("START".to_string(), "controller:Start".to_string()));
}

#[test]
fn remap_ignores_unrecognized_events() {
    let mut cfg = default_config();
    let (state, _, _) = process_menu(open_at(1), &MenuEvent::Activate, &mut cfg);
    // keyboard events are not captures: the cursor stays where it was
    let (state, _, _) = process_menu(state, &MenuEvent::Up, &mut cfg);
    let (state, _, _) = process_menu(state, &MenuEvent::Activate, &mut cfg);
    let (state, _, _) = process_menu(state, &MenuEvent::Other, &mut cfg);
    match state {
        MenuState::Remap { idx, temp_map, .. } => {
            assert_eq!(idx, 0);
            assert!(temp_map.is_empty());
        },
        other => panic!("expected a remap state, got {:?}", other),
    }
    assert!(cfg.controller_map.is_none());
}

#[test]
fn closed_menu_ignores_events() {
    let mut cfg = default_config();
    let (s, e, m) = process_menu(MenuState::Closed, &MenuEvent::Activate, &mut cfg);
    assert!(matches!(s, MenuState::Closed));
    assert_eq!(e, MenuEffect::Nothing);
    assert_eq!(m, None);
}

#[test]
fn effect_messages() {
    assert_eq!(config_saved_message(), "Config saved");
    assert_eq!(remap_saved_message(), "Controller mapping saved");
    assert_eq!(save_failed_message("disk full"), "Save failed: disk full");
}
