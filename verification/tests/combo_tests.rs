use emu_frontend::combo::ComboTracker;

const START: u64 = 7;
const L_SHOULDER: u64 = 4;
const R_SHOULDER: u64 = 5;

fn tracker() -> ComboTracker {
    ComboTracker::new(vec![START, L_SHOULDER, R_SHOULDER])
}

#[test]
fn chord_fires_within_window() {
    let mut t = tracker();
    assert!(!t.on_press(START, 0));
    assert!(!t.on_press(L_SHOULDER, 200));
    // the third press completes the chord: 350 - 0 <= 400
    assert!(t.on_press(R_SHOULDER, 350));
    // firing clears the tracked presses
    assert_eq!(t.tracked_count(), 0);
}

#[test]
fn chord_respects_cooldown_then_fires_again() {
    let mut t = tracker();
    assert!(!t.on_press(START, 0));
    assert!(!t.on_press(L_SHOULDER, 200));
    assert!(t.on_press(R_SHOULDER, 350));
    // all three re-pressed at t=500: the cooldown has not elapsed
    assert!(!t.on_press(START, 500));
    assert!(!t.on_press(L_SHOULDER, 500));
    assert!(!t.on_press(R_SHOULDER, 500));
    // re-pressed at t=1100: the cooldown has elapsed, the chord fires again
    assert!(!t.on_press(START, 1100));
    assert!(!t.on_press(L_SHOULDER, 1100));
    assert!(t.on_press(R_SHOULDER, 1100));
}

#[test]
fn chord_needs_all_buttons() {
    let mut t = tracker();
    assert!(!t.on_press(START, 0));
    assert!(!t.on_press(L_SHOULDER, 50));
    // an unrelated button does not complete the chord
    assert!(!t.on_press(99, 60));
    assert_eq!(t.tracked_count(), 3);
}

#[test]
fn chord_does_not_fire_outside_window() {
    let mut t = tracker();
    assert!(!t.on_press(START, 0));
    assert!(!t.on_press(L_SHOULDER, 200));
    // 401ms from the earliest press: too wide
    assert!(!t.on_press(R_SHOULDER, 401));
    // a fresh press of the stale button narrows the span and fires
    assert!(t.on_press(START, 402));
}

#[test]
fn release_removes_tracking() {
    let mut t = tracker();
    assert!(!t.on_press(START, 0));
    assert!(!t.on_press(L_SHOULDER, 100));
    t.on_release(START);
    assert_eq!(t.tracked_count(), 1);
    // the chord cannot complete without the released button
    assert!(!t.on_press(R_SHOULDER, 150));
    // pressing it again completes the chord
    assert!(t.on_press(START, 200));
}

#[test]
fn release_of_untracked_button_is_harmless() {
    let mut t = tracker();
    assert!(!t.on_press(START, 0));
    t.on_release(R_SHOULDER);
    assert_eq!(t.tracked_count(), 1);
}

#[test]
fn repeated_press_updates_timestamp() {
    let mut t = tracker();
    assert!(!t.on_press(START, 0));
    assert!(!t.on_press(L_SHOULDER, 100));
    // START held stale, pressed again much later: only the fresh stamps count
    assert!(!t.on_press(START, 1000));
    assert!(!t.on_press(L_SHOULDER, 1050));
    assert!(t.on_press(R_SHOULDER, 1100));
}
