use vstd::prelude::*;

use crate::config::{ConfigFile, ConfigView, opt_string_view};
use crate::text::{dec_str, str_eq, u64_to_string};

verus! {

// ---------------------------------------------------------------------------
// States and events
// ---------------------------------------------------------------------------
/// The settings overlay: closed, open over an item list with a selection,
/// or capturing a controller mapping action by action.
#[derive(Debug)]
pub enum MenuState {
    Closed,
    Open { items: Vec<String>, selected: usize },
    Remap { actions: Vec<String>, idx: usize, temp_map: Vec<(String, String)> },
}

/// Mathematical model of a `MenuState`.
pub ghost enum MenuView {
    Closed,
    Open { items: Seq<Seq<char>>, selected: int },
    Remap { actions: Seq<Seq<char>>, idx: int, temp_map: Seq<(Seq<char>, Seq<char>)> },
}

impl View for MenuState {
    type V = MenuView;

    open spec fn view(&self) -> MenuView {
        match self {
            MenuState::Closed => MenuView::Closed,
            MenuState::Open { items, selected } => MenuView::Open {
                items: items.deep_view(),
                selected: *selected as int,
            },
            MenuState::Remap { actions, idx, temp_map } => MenuView::Remap {
                actions: actions.deep_view(),
                idx: *idx as int,
                temp_map: temp_map.deep_view(),
            },
        }
    }
}

/// Well-formedness of a menu state: an open menu's selection stays inside
/// its item list, and a remap in progress still has an action to capture.
pub open spec fn menu_wf(m: MenuView) -> bool {
    match m {
        MenuView::Closed => true,
        MenuView::Open { items, selected } => 0 <= selected < items.len(),
        MenuView::Remap { actions, idx, temp_map } => 0 <= idx < actions.len(),
    }
}

/// One decoded input event handed to the menu while the overlay is active.
/// Keyboard input arrives as the four semantic events; controller buttons
/// arrive under their names and joystick buttons under their indices, since
/// the remap capture records exactly those.
#[derive(Debug)]
pub enum MenuEvent {
    Up,
    Down,
    Activate,
    Cancel,
    PadButton(String),
    JoyButton(u64),
    Other,
}

/// Mathematical model of a `MenuEvent`.
pub ghost enum MenuEventView {
    Up,
    Down,
    Activate,
    Cancel,
    PadButton(Seq<char>),
    JoyButton(u64),
    Other,
}

impl View for MenuEvent {
    type V = MenuEventView;

    open spec fn view(&self) -> MenuEventView {
        match self {
            MenuEvent::Up => MenuEventView::Up,
            MenuEvent::Down => MenuEventView::Down,
            MenuEvent::Activate => MenuEventView::Activate,
            MenuEvent::Cancel => MenuEventView::Cancel,
            MenuEvent::PadButton(n) => MenuEventView::PadButton(n@),
            MenuEvent::JoyButton(i) => MenuEventView::JoyButton(*i),
            MenuEvent::Other => MenuEventView::Other,
        }
    }
}

/// What the menu asks its surroundings to do after a step.  `Reload` asks
/// for a configuration reload with a rescan; `Save` persists the
/// configuration after a menu action; `SaveRemap` persists it after a
/// completed remap; `Quit` ends the program loop.
#[derive(Clone, Copy, Debug, PartialEq, Eq, Structural)]
pub enum MenuEffect {
    Nothing,
    Reload,
    Save,
    SaveRemap,
    Quit,
}

// ---------------------------------------------------------------------------
// The transition function, modelled
// ---------------------------------------------------------------------------
/// Everything one menu step yields: the next state, the effect asked of
/// the surroundings, a status message if any, and the configuration as the
/// step leaves it.
pub ghost struct MenuStepView {
    pub state: MenuView,
    pub effect: MenuEffect,
    pub message: Option<Seq<char>>,
    pub cfg: ConfigView,
}

/// The menu items, in display order.
pub open spec fn menu_items_view() -> Seq<Seq<char>> {
    seq![
        "Toggle show_empty_systems"@,
        "Remap controls"@,
        "Reload config"@,
        "Save config"@,
        "Close"@,
        "Exit"@,
    ]
}

/// The fixed, ordered list of logical actions a remap captures.
pub open spec fn remap_actions_view() -> Seq<Seq<char>> {
    seq!["A"@, "B"@, "UP"@, "DOWN"@, "LEFT"@, "RIGHT"@, "START"@]
}

/// A fresh remap state: cursor at the first action, nothing captured.
pub open spec fn fresh_remap_view() -> MenuView {
    MenuView::Remap { actions: remap_actions_view(), idx: 0, temp_map: Seq::empty() }
}

pub open spec fn is_up_event(e: MenuEventView) -> bool {
    ||| e is Up
    ||| (e matches MenuEventView::PadButton(n) && n == "DPadUp"@)
}

pub open spec fn is_down_event(e: MenuEventView) -> bool {
    ||| e is Down
    ||| (e matches MenuEventView::PadButton(n) && n == "DPadDown"@)
}

pub open spec fn is_activate_event(e: MenuEventView) -> bool {
    ||| e is Activate
    ||| (e matches MenuEventView::PadButton(n) && n == "A"@)
}

pub open spec fn is_cancel_event(e: MenuEventView) -> bool {
    ||| e is Cancel
    ||| (e matches MenuEventView::PadButton(n) && n == "B"@)
}

/// An event the remap capture accepts: a controller or joystick button.
pub open spec fn is_capture_event(e: MenuEventView) -> bool {
    e is PadButton || e is JoyButton
}

/// The tagged key string a capture stores, distinguishing its source.
pub open spec fn capture_key(e: MenuEventView) -> Seq<char> {
    match e {
        MenuEventView::PadButton(n) => "controller:"@ + n,
        MenuEventView::JoyButton(i) => "joybutton:"@ + dec_str(i as nat),
        _ => Seq::empty(),
    }
}

pub open spec fn toggle_message_view(v: bool) -> Seq<char> {
    if v {
        "show_empty_systems set to true"@
    } else {
        "show_empty_systems set to false"@
    }
}

/// A step that changes nothing.
pub open spec fn unchanged_step(m: MenuView, cfg: ConfigView) -> MenuStepView {
    MenuStepView { state: m, effect: MenuEffect::Nothing, message: None, cfg }
}

/// Activating the item under the selection.
pub open spec fn activate_spec(items: Seq<Seq<char>>, selected: int, cfg: ConfigView) -> MenuStepView {
    let m = MenuView::Open { items, selected };
    let label = items[selected];
    if label == "Toggle show_empty_systems"@ {
        let cur = cfg.show_empty_systems == Some(true);
        MenuStepView {
            state: m,
            effect: MenuEffect::Nothing,
            message: Some(toggle_message_view(!cur)),
            cfg: ConfigView { show_empty_systems: Some(!cur), ..cfg },
        }
    } else if label == "Remap controls"@ {
        MenuStepView { state: fresh_remap_view(), effect: MenuEffect::Nothing, message: None, cfg }
    } else if label == "Reload config"@ {
        MenuStepView {
            state: m,
            effect: MenuEffect::Reload,
            message: Some("Config reloaded"@),
            cfg,
        }
    } else if label == "Save config"@ {
        MenuStepView { state: m, effect: MenuEffect::Save, message: None, cfg }
    } else if label == "Close"@ {
        MenuStepView { state: MenuView::Closed, effect: MenuEffect::Nothing, message: None, cfg }
    } else if label == "Exit"@ {
        MenuStepView { state: MenuView::Closed, effect: MenuEffect::Quit, message: None, cfg }
    } else {
        unchanged_step(m, cfg)
    }
}

/// Activating through the joystick confirm button reaches only the remap
/// and exit items.
pub open spec fn joy_activate_spec(items: Seq<Seq<char>>, selected: int, cfg: ConfigView) -> MenuStepView {
    let m = MenuView::Open { items, selected };
    let label = items[selected];
    if label == "Remap controls"@ {
        MenuStepView { state: fresh_remap_view(), effect: MenuEffect::Nothing, message: None, cfg }
    } else if label == "Exit"@ {
        MenuStepView { state: MenuView::Closed, effect: MenuEffect::Quit, message: None, cfg }
    } else {
        unchanged_step(m, cfg)
    }
}

/// One step of the open menu.
pub open spec fn open_step_spec(
    items: Seq<Seq<char>>,
    selected: int,
    e: MenuEventView,
    cfg: ConfigView,
) -> MenuStepView {
    let m = MenuView::Open { items, selected };
    if is_up_event(e) {
        MenuStepView {
            state: MenuView::Open {
                items,
                selected: if selected > 0 {
                    selected - 1
                } else {
                    selected
                },
            },
            effect: MenuEffect::Nothing,
            message: None,
            cfg,
        }
    } else if is_down_event(e) {
        MenuStepView {
            state: MenuView::Open {
                items,
                selected: if selected + 1 < items.len() {
                    selected + 1
                } else {
                    selected
                },
            },
            effect: MenuEffect::Nothing,
            message: None,
            cfg,
        }
    } else if is_activate_event(e) {
        activate_spec(items, selected, cfg)
    } else if is_cancel_event(e) {
        MenuStepView { state: MenuView::Closed, effect: MenuEffect::Nothing, message: None, cfg }
    } else if e matches MenuEventView::JoyButton(i) && i == 0 {
        joy_activate_spec(items, selected, cfg)
    } else {
        unchanged_step(m, cfg)
    }
}

/// One step of the remap capture: a recognized button event stores its
/// tagged key for the action under the cursor and advances it; capturing
/// the last action commits the accumulated map into the configuration and
/// closes the overlay, asking for a save.  Anything else is ignored.
pub open spec fn remap_step_spec(
    actions: Seq<Seq<char>>,
    idx: int,
    temp_map: Seq<(Seq<char>, Seq<char>)>,
    e: MenuEventView,
    cfg: ConfigView,
) -> MenuStepView {
    if is_capture_event(e) {
        let tm2 = temp_map.push((actions[idx], capture_key(e)));
        if idx + 1 >= actions.len() {
            MenuStepView {
                state: MenuView::Closed,
                effect: MenuEffect::SaveRemap,
                message: None,
                cfg: ConfigView { controller_map: Some(tm2), ..cfg },
            }
        } else {
            MenuStepView {
                state: MenuView::Remap { actions, idx: idx + 1, temp_map: tm2 },
                effect: MenuEffect::Nothing,
                message: None,
                cfg,
            }
        }
    } else {
        unchanged_step(MenuView::Remap { actions, idx, temp_map }, cfg)
    }
}

/// One step of the whole menu machine.
pub open spec fn menu_step_spec(m: MenuView, e: MenuEventView, cfg: ConfigView) -> MenuStepView {
    match m {
        MenuView::Closed => unchanged_step(m, cfg),
        MenuView::Open { items, selected } => open_step_spec(items, selected, e, cfg),
        MenuView::Remap { actions, idx, temp_map } => remap_step_spec(
            actions,
            idx,
            temp_map,
            e,
            cfg,
        ),
    }
}

/// A step preserves well-formedness.
pub proof fn lemma_menu_step_wf(m: MenuView, e: MenuEventView, cfg: ConfigView)
    requires
        menu_wf(m),
    ensures
        menu_wf(menu_step_spec(m, e, cfg).state),
{
}

// ---------------------------------------------------------------------------
// The executable machine
// ---------------------------------------------------------------------------
/// The settings menu's items, rebuilt fresh each time the menu opens.
pub fn build_menu_items() -> (r: Vec<String>)
    ensures
        r.deep_view() == menu_items_view(),
{
    let mut v: Vec<String> = Vec::new();
    v.push(String::from_str("Toggle show_empty_systems"));
    v.push(String::from_str("Remap controls"));
    v.push(String::from_str("Reload config"));
    v.push(String::from_str("Save config"));
    v.push(String::from_str("Close"));
    v.push(String::from_str("Exit"));
    proof {
        assert(v.deep_view() =~= menu_items_view());
    }
    v
}

/// The fixed list of logical actions a remap captures, in capture order.
pub fn remap_actions() -> (r: Vec<String>)
    ensures
        r.deep_view() == remap_actions_view(),
{
    let mut v: Vec<String> = Vec::new();
    v.push(String::from_str("A"));
    v.push(String::from_str("B"));
    v.push(String::from_str("UP"));
    v.push(String::from_str("DOWN"));
    v.push(String::from_str("LEFT"));
    v.push(String::from_str("RIGHT"));
    v.push(String::from_str("START"));
    proof {
        assert(v.deep_view() =~= remap_actions_view());
    }
    v
}

/// A freshly opened menu: the item list rebuilt, the first item selected.
pub fn open_menu() -> (r: MenuState)
    ensures
        r@ == (MenuView::Open { items: menu_items_view(), selected: 0 }),
        menu_wf(r@),
{
    let items = build_menu_items();
    proof {
        assert(menu_items_view().len() == 6);
    }
    MenuState::Open { items, selected: 0 }
}

fn open_activate(items: Vec<String>, selected: usize, cfg: &mut ConfigFile) -> (r: (
    MenuState,
    MenuEffect,
    Option<String>,
))
    requires
        selected < items.len(),
    ensures
        r.0@ == activate_spec(items.deep_view(), selected as int, old(cfg)@).state,
        r.1 == activate_spec(items.deep_view(), selected as int, old(cfg)@).effect,
        opt_string_view(r.2) == activate_spec(items.deep_view(), selected as int, old(cfg)@).message,
        final(cfg)@ == activate_spec(items.deep_view(), selected as int, old(cfg)@).cfg,
{
    if str_eq(items[selected].as_str(), "Toggle show_empty_systems") {
        let cur: bool = match cfg.show_empty_systems {
            Some(b) => b,
            None => false,
        };
        cfg.show_empty_systems = Some(!cur);
        let msg = if !cur {
            String::from_str("show_empty_systems set to true")
        } else {
            String::from_str("show_empty_systems set to false")
        };
        (MenuState::Open { items, selected }, MenuEffect::Nothing, Some(msg))
    } else if str_eq(items[selected].as_str(), "Remap controls") {
        let actions = remap_actions();
        let temp_map: Vec<(String, String)> = Vec::new();
        proof {
            assert(temp_map.deep_view() =~= Seq::<(Seq<char>, Seq<char>)>::empty());
        }
        (MenuState::Remap { actions, idx: 0, temp_map }, MenuEffect::Nothing, None)
    } else if str_eq(items[selected].as_str(), "Reload config") {
        (
            MenuState::Open { items, selected },
            MenuEffect::Reload,
            Some(String::from_str("Config reloaded")),
        )
    } else if str_eq(items[selected].as_str(), "Save config") {
        (MenuState::Open { items, selected }, MenuEffect::Save, None)
    } else if str_eq(items[selected].as_str(), "Close") {
        (MenuState::Closed, MenuEffect::Nothing, None)
    } else if str_eq(items[selected].as_str(), "Exit") {
        (MenuState::Closed, MenuEffect::Quit, None)
    } else {
        (MenuState::Open { items, selected }, MenuEffect::Nothing, None)
    }
}

fn joy_activate(items: Vec<String>, selected: usize, cfg: &ConfigFile) -> (r: (
    MenuState,
    MenuEffect,
    Option<String>,
))
    requires
        selected < items.len(),
    ensures
        r.0@ == joy_activate_spec(items.deep_view(), selected as int, cfg@).state,
        r.1 == joy_activate_spec(items.deep_view(), selected as int, cfg@).effect,
        opt_string_view(r.2) == joy_activate_spec(items.deep_view(), selected as int, cfg@).message,
{
    if str_eq(items[selected].as_str(), "Remap controls") {
        let actions = remap_actions();
        let temp_map: Vec<(String, String)> = Vec::new();
        proof {
            assert(temp_map.deep_view() =~= Seq::<(Seq<char>, Seq<char>)>::empty());
        }
        (MenuState::Remap { actions, idx: 0, temp_map }, MenuEffect::Nothing, None)
    } else if str_eq(items[selected].as_str(), "Exit") {
        (MenuState::Closed, MenuEffect::Quit, None)
    } else {
        (MenuState::Open { items, selected }, MenuEffect::Nothing, None)
    }
}

/// Drive the menu one step: interpret one input event against the current
/// state, mutate the configuration where the step calls for it, and hand
/// back the next state, the effect the surroundings must perform, and a
/// status message if one arose.
pub fn process_menu(state: MenuState, event: &MenuEvent, cfg: &mut ConfigFile) -> (r: (
    MenuState,
    MenuEffect,
    Option<String>,
))
    requires
        menu_wf(state@),
    ensures
        r.0@ == menu_step_spec(state@, event@, old(cfg)@).state,
        r.1 == menu_step_spec(state@, event@, old(cfg)@).effect,
        opt_string_view(r.2) == menu_step_spec(state@, event@, old(cfg)@).message,
        final(cfg)@ == menu_step_spec(state@, event@, old(cfg)@).cfg,
        menu_wf(r.0@),
{
    proof {
        lemma_menu_step_wf(state@, event@, old(cfg)@);
    }
    match state {
        MenuState::Closed => (MenuState::Closed, MenuEffect::Nothing, None),
        MenuState::Open { items, selected } => {
            match event {
                MenuEvent::Up => {
                    let s2: usize = if selected > 0 {
                        selected - 1
                    } else {
                        selected
                    };
                    (MenuState::Open { items, selected: s2 }, MenuEffect::Nothing, None)
                },
                MenuEvent::Down => {
                    let len = items.len();
                    assert(selected < len);
                    let s2: usize = if selected + 1 < len {
                        selected + 1
                    } else {
                        selected
                    };
                    (MenuState::Open { items, selected: s2 }, MenuEffect::Nothing, None)
                },
                MenuEvent::Activate => open_activate(items, selected, cfg),
                MenuEvent::Cancel => (MenuState::Closed, MenuEffect::Nothing, None),
                MenuEvent::PadButton(n) => {
                    if str_eq(n.as_str(), "DPadUp") {
                        let s2: usize = if selected > 0 {
                            selected - 1
                        } else {
                            selected
                        };
                        (MenuState::Open { items, selected: s2 }, MenuEffect::Nothing, None)
                    } else if str_eq(n.as_str(), "DPadDown") {
                        let len = items.len();
                        assert(selected < len);
                        let s2: usize = if selected + 1 < len {
                            selected + 1
                        } else {
                            selected
                        };
                        (MenuState::Open { items, selected: s2 }, MenuEffect::Nothing, None)
                    } else if str_eq(n.as_str(), "A") {
                        open_activate(items, selected, cfg)
                    } else if str_eq(n.as_str(), "B") {
                        (MenuState::Closed, MenuEffect::Nothing, None)
                    } else {
                        (MenuState::Open { items, selected }, MenuEffect::Nothing, None)
                    }
                },
                MenuEvent::JoyButton(i) => {
                    if *i == 0 {
                        joy_activate(items, selected, cfg)
                    } else {
                        (MenuState::Open { items, selected }, MenuEffect::Nothing, None)
                    }
                },
                MenuEvent::Other => (
                    MenuState::Open { items, selected },
                    MenuEffect::Nothing,
                    None,
                ),
            }
        },
        MenuState::Remap { actions, idx, mut temp_map } => {
            match event {
                MenuEvent::PadButton(n) => {
                    let len = actions.len();
                    assert(idx < len);
                    let mut key = String::from_str("controller:");
                    key.append(n.as_str());
                    let act = actions[idx].clone();
                    let ghost tm0 = temp_map.deep_view();
                    proof {
                        assert(key@ == capture_key(event@));
                    }
                    temp_map.push((act, key));
                    proof {
                        assert(temp_map.deep_view() =~= tm0.push(
                            (actions.deep_view()[idx as int], capture_key(event@)),
                        ));
                    }
                    if idx + 1 >= len {
                        cfg.controller_map = Some(temp_map);
                        (MenuState::Closed, MenuEffect::SaveRemap, None)
                    } else {
                        (
                            MenuState::Remap { actions, idx: idx + 1, temp_map },
                            MenuEffect::Nothing,
                            None,
                        )
                    }
                },
                MenuEvent::JoyButton(i) => {
                    let len = actions.len();
                    assert(idx < len);
                    let mut key = String::from_str("joybutton:");
                    let digits = u64_to_string(*i);
                    key.append(digits.as_str());
                    let act = actions[idx].clone();
                    let ghost tm0 = temp_map.deep_view();
                    proof {
                        assert(key@ == capture_key(event@));
                    }
                    temp_map.push((act, key));
                    proof {
                        assert(temp_map.deep_view() =~= tm0.push(
                            (actions.deep_view()[idx as int], capture_key(event@)),
                        ));
                    }
                    if idx + 1 >= len {
                        cfg.controller_map = Some(temp_map);
                        (MenuState::Closed, MenuEffect::SaveRemap, None)
                    } else {
                        (
                            MenuState::Remap { actions, idx: idx + 1, temp_map },
                            MenuEffect::Nothing,
                            None,
                        )
                    }
                },
                _ => (
                    MenuState::Remap { actions, idx, temp_map },
                    MenuEffect::Nothing,
                    None,
                ),
            }
        },
    }
}

// ---------------------------------------------------------------------------
// Status messages for the effects the surroundings perform
// ---------------------------------------------------------------------------
/// The report after the `Save` effect succeeded.
pub fn config_saved_message() -> (r: String)
    ensures
        r@ == "Config saved"@,
{
    String::from_str("Config saved")
}

/// The report after the `SaveRemap` effect succeeded.
pub fn remap_saved_message() -> (r: String)
    ensures
        r@ == "Controller mapping saved"@,
{
    String::from_str("Controller mapping saved")
}

/// The report when persisting the configuration failed, for either effect.
pub fn save_failed_message(err: &str) -> (r: String)
    ensures
        r@ == "Save failed: "@ + err@,
{
    let mut m = String::from_str("Save failed: ");
    m.append(err);
    m
}

// ---------------------------------------------------------------------------
// Runs of the machine
// ---------------------------------------------------------------------------
/// The state and configuration after feeding a sequence of events.
pub open spec fn menu_run(m: MenuView, events: Seq<MenuEventView>, cfg: ConfigView) -> (
    MenuView,
    ConfigView,
)
    decreases events.len(),
{
    if events.len() == 0 {
        (m, cfg)
    } else {
        let s = menu_step_spec(m, events[0], cfg);
        menu_run(s.state, events.drop_first(), s.cfg)
    }
}

/// An event of no recognized input kind leaves a remap capture exactly
/// where it stood: same cursor, same partial map, same configuration.
pub proof fn lemma_remap_ignores_unrecognized(
    actions: Seq<Seq<char>>,
    idx: int,
    temp_map: Seq<(Seq<char>, Seq<char>)>,
    e: MenuEventView,
    cfg: ConfigView,
)
    requires
        !is_capture_event(e),
    ensures
        menu_step_spec(MenuView::Remap { actions, idx, temp_map }, e, cfg) == unchanged_step(
            MenuView::Remap { actions, idx, temp_map },
            cfg,
        ),
{
}

proof fn lemma_remap_run(
    actions: Seq<Seq<char>>,
    idx: int,
    temp_map: Seq<(Seq<char>, Seq<char>)>,
    events: Seq<MenuEventView>,
    cfg: ConfigView,
)
    requires
        0 <= idx < actions.len(),
        events.len() == actions.len() - idx,
        forall|k: int| 0 <= k < events.len() ==> is_capture_event(#[trigger] events[k]),
    ensures
        menu_run(MenuView::Remap { actions, idx, temp_map }, events, cfg).0 is Closed,
        menu_run(MenuView::Remap { actions, idx, temp_map }, events, cfg).1.controller_map
            matches Some(m) && m.len() == temp_map.len() + events.len(),
        menu_run(MenuView::Remap { actions, idx, temp_map }, events, cfg).1.systems == cfg.systems,
    decreases events.len(),
{
    let m0 = MenuView::Remap { actions, idx, temp_map };
    assert(is_capture_event(events[0]));
    let s = menu_step_spec(m0, events[0], cfg);
    let tm2 = temp_map.push((actions[idx], capture_key(events[0])));
    assert(menu_run(m0, events, cfg) == menu_run(s.state, events.drop_first(), s.cfg));
    if idx + 1 >= actions.len() {
        assert(events.len() == 1);
        assert(events.drop_first().len() == 0);
        assert(menu_run(s.state, events.drop_first(), s.cfg) == (s.state, s.cfg));
        assert(s.state is Closed);
        assert(s.cfg.controller_map == Some(tm2));
    } else {
        assert forall|k: int| 0 <= k < events.drop_first().len() implies is_capture_event(
            #[trigger] events.drop_first()[k],
        ) by {
            assert(is_capture_event(events[k + 1]));
        }
        lemma_remap_run(actions, idx + 1, tm2, events.drop_first(), cfg);
    }
}

/// Remap completion: from a fresh remap state, one recognized capture per
/// action drives the machine to Closed and commits a controller map with
/// exactly one entry per action, leaving the rest of the configuration
/// alone.
pub proof fn lemma_remap_completion(events: Seq<MenuEventView>, cfg: ConfigView)
    requires
        events.len() == remap_actions_view().len(),
        forall|k: int| 0 <= k < events.len() ==> is_capture_event(#[trigger] events[k]),
    ensures
        menu_run(fresh_remap_view(), events, cfg).0 is Closed,
        menu_run(fresh_remap_view(), events, cfg).1.controller_map matches Some(m) && m.len()
            == remap_actions_view().len(),
        menu_run(fresh_remap_view(), events, cfg).1.systems == cfg.systems,
{
    assert(remap_actions_view().len() == 7);
    lemma_remap_run(remap_actions_view(), 0, Seq::empty(), events, cfg);
}

} // verus!
