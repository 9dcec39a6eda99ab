use emu_frontend::supervisor::{
    KillAction, PollOutcome, SlotEvent, SpawnPollAction, apply_slot_event, build_launch_args,
    kill_empty_slot_message, kill_failed_message, kill_poll_decision, spawn_poll_decision,
    KILL_POLL_INTERVAL_MS, SPAWN_POLL_INTERVAL_MS,
};

fn strings(v: &[&str]) -> Vec<String> {
    v.iter().map(|s| s.to_string()).collect()
}

#[test]
fn args_substitute_placeholder() {
    let args = strings(&["-fs", "{rom}", "--verbose", "{rom}"]);
    let built = build_launch_args(&args, "/roms/nes/game.nes");
    assert_eq!(
        built,
        strings(&["-fs", "/roms/nes/game.nes", "--verbose", "/roms/nes/game.nes"])
    );
}

#[test]
fn args_pass_through_verbatim() {
    let args = strings(&["--rom", "rom", "{ROM}"]);
    let built = build_launch_args(&args, "/x");
    assert_eq!(built, strings(&["--rom", "rom", "{ROM}"]));
}

#[test]
fn slot_fills_only_on_spawn() {
    assert!(apply_slot_event(false, &SlotEvent::SpawnOk));
    assert!(!apply_slot_event(false, &SlotEvent::SpawnFailed));
    assert!(!apply_slot_event(false, &SlotEvent::KillSignalFailed));
}

#[test]
fn slot_clears_on_exit_and_kill() {
    assert!(!apply_slot_event(true, &SlotEvent::ExitObserved));
    assert!(!apply_slot_event(true, &SlotEvent::WaitFailed));
    assert!(!apply_slot_event(true, &SlotEvent::KillConfirmed));
    assert!(!apply_slot_event(true, &SlotEvent::KillTimedOut));
    assert!(apply_slot_event(true, &SlotEvent::KillSignalFailed));
}

#[test]
fn slot_occupied_after_spawn_until_cleared() {
    // a spawn/kill/exit history: the slot is occupied exactly while a
    // successful spawn has no clearing observation after it
    let history = [
        (SlotEvent::SpawnFailed, false),
        (SlotEvent::SpawnOk, true),
        (SlotEvent::KillSignalFailed, true),
        (SlotEvent::KillConfirmed, false),
        (SlotEvent::SpawnOk, true),
        (SlotEvent::ExitObserved, false),
    ];
    let mut occupied = false;
    for (event, expect) in history.iter() {
        occupied = apply_slot_event(occupied, event);
        assert_eq!(occupied, *expect);
    }
}

#[test]
fn kill_reports_exit_status() {
    let a = kill_poll_decision(&PollOutcome::Exited("exit status: 0".to_string()), 10);
    match a {
        KillAction::ClearReportKilled(m) => {
            assert_eq!(m, "Emulator killed (status: exit status: 0)")
        },
        other => panic!("unexpected action: {:?}", other),
    }
}

#[test]
fn kill_gives_up_after_timeout() {
    let a = kill_poll_decision(&PollOutcome::StillRunning, 1001);
    match a {
        KillAction::ClearReportSignalled(m) => assert_eq!(m, "Emulator kill signalled"),
        other => panic!("unexpected action: {:?}", other),
    }
}

#[test]
fn kill_keeps_polling_within_timeout() {
    let a = kill_poll_decision(&PollOutcome::StillRunning, 1000);
    match a {
        KillAction::PollAgain(t) => assert_eq!(t, KILL_POLL_INTERVAL_MS),
        other => panic!("unexpected action: {:?}", other),
    }
}

#[test]
fn kill_surfaces_wait_errors() {
    let a = kill_poll_decision(&PollOutcome::PollError("no child".to_string()), 0);
    match a {
        KillAction::ClearReportWaitError(m) => {
            assert_eq!(m, "error waiting for process: no child")
        },
        other => panic!("unexpected action: {:?}", other),
    }
}

#[test]
fn kill_messages() {
    assert_eq!(kill_empty_slot_message(), "No emulator running");
    assert_eq!(kill_failed_message("EPERM"), "failed to kill process: EPERM");
}

#[test]
fn spawn_poll_actions() {
    assert!(matches!(
        spawn_poll_decision(&PollOutcome::Exited("done".to_string())),
        SpawnPollAction::ClearAndFinish
    ));
    match spawn_poll_decision(&PollOutcome::StillRunning) {
        SpawnPollAction::KeepPolling(t) => assert_eq!(t, SPAWN_POLL_INTERVAL_MS),
        other => panic!("unexpected action: {:?}", other),
    }
    assert!(matches!(
        spawn_poll_decision(&PollOutcome::PollError("gone".to_string())),
        SpawnPollAction::ClearAndFinish
    ));
}
