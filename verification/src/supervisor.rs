use vstd::prelude::*;

use crate::text::str_eq;

verus! {

// ---------------------------------------------------------------------------
// Launch arguments
// ---------------------------------------------------------------------------
/// An argument list with every placeholder token replaced by the item path.
pub open spec fn subst_args(args: Seq<Seq<char>>, rom: Seq<char>) -> Seq<Seq<char>> {
    args.map_values(|a: Seq<char>| if a == "{rom}"@ { rom } else { a })
}

/// Build the argument list for a launch: every argument equal to the
/// placeholder `{rom}` becomes the chosen item's path; all others pass
/// through verbatim.
pub fn build_launch_args(args: &Vec<String>, rom_path: &str) -> (r: Vec<String>)
    ensures
        r.deep_view() == subst_args(args.deep_view(), rom_path@),
{
    let mut r: Vec<String> = Vec::new();
    let ghost target = subst_args(args.deep_view(), rom_path@);
    proof {
        assert(r.deep_view() =~= target.take(0));
    }
    let mut i: usize = 0;
    while i < args.len()
        invariant
            i <= args.len(),
            args.deep_view().len() == args.len(),
            target == subst_args(args.deep_view(), rom_path@),
            r.deep_view() == target.take(i as int),
        decreases args.len() - i,
    {
        let ghost pre = r.deep_view();
        if str_eq(args[i].as_str(), "{rom}") {
            r.push(rom_path.to_owned());
            proof {
                assert(args.deep_view()[i as int] == "{rom}"@);
                assert(target[i as int] == rom_path@);
                assert(r.deep_view() =~= pre.push(rom_path@));
                assert(r.deep_view() =~= target.take(i + 1));
            }
        } else {
            r.push(args[i].clone());
            proof {
                assert(args.deep_view()[i as int] != "{rom}"@);
                assert(target[i as int] == args.deep_view()[i as int]);
                assert(r.deep_view() =~= pre.push(args.deep_view()[i as int]));
                assert(r.deep_view() =~= target.take(i + 1));
            }
        }
        i = i + 1;
    }
    proof {
        assert(target.take(args.len() as int) =~= target);
    }
    r
}

// ---------------------------------------------------------------------------
// The shared slot, modelled
// ---------------------------------------------------------------------------
/// One observation about the supervised child, as the threads report them:
/// a spawn that succeeded or failed, an exit or wait failure seen by the
/// poll loop, and the three ways a kill attempt can end.
#[derive(Clone, Copy, Debug, PartialEq, Eq, Structural)]
pub enum SlotEvent {
    SpawnOk,
    SpawnFailed,
    ExitObserved,
    WaitFailed,
    KillConfirmed,
    KillTimedOut,
    KillSignalFailed,
}

/// Events that place a child into the slot.
pub open spec fn sets_slot(e: SlotEvent) -> bool {
    e is SpawnOk
}

/// Events that empty the slot: an observed exit, a wait failure, and a kill
/// that was confirmed or timed out (the slot is cleared defensively).
pub open spec fn clears_slot(e: SlotEvent) -> bool {
    ||| e is ExitObserved
    ||| e is WaitFailed
    ||| e is KillConfirmed
    ||| e is KillTimedOut
}

/// One step of the slot model.
pub open spec fn slot_step(occupied: bool, e: SlotEvent) -> bool {
    if sets_slot(e) {
        true
    } else if clears_slot(e) {
        false
    } else {
        occupied
    }
}

/// Whether the slot is occupied after a sequence of observations, starting
/// empty.
pub open spec fn slot_after(events: Seq<SlotEvent>) -> bool
    decreases events.len(),
{
    if events.len() == 0 {
        false
    } else {
        slot_step(slot_after(events.drop_last()), events.last())
    }
}

/// Apply one observation to the tracked occupancy.
pub fn apply_slot_event(occupied: bool, e: &SlotEvent) -> (r: bool)
    ensures
        r == slot_step(occupied, *e),
{
    match e {
        SlotEvent::SpawnOk => true,
        SlotEvent::ExitObserved => false,
        SlotEvent::WaitFailed => false,
        SlotEvent::KillConfirmed => false,
        SlotEvent::KillTimedOut => false,
        SlotEvent::SpawnFailed => occupied,
        SlotEvent::KillSignalFailed => occupied,
    }
}

/// Appending one observation steps the model once.
pub proof fn lemma_slot_after_step(events: Seq<SlotEvent>, e: SlotEvent)
    ensures
        slot_after(events.push(e)) == slot_step(slot_after(events), e),
{
    assert(events.push(e).drop_last() =~= events);
    assert(events.push(e).last() == e);
}

/// Exit and kill observations only take the slot from occupied to empty,
/// and nothing but a successful spawn fills it.
pub proof fn lemma_slot_monotone(occupied: bool, e: SlotEvent)
    ensures
        clears_slot(e) ==> !slot_step(occupied, e),
        !sets_slot(e) && !occupied ==> !slot_step(occupied, e),
{
}

/// The supervisor invariant: after any sequence of spawn, exit and kill
/// observations, the slot is occupied exactly when some successful spawn
/// has no exit, wait failure or completed kill after it.
pub proof fn lemma_slot_occupied_iff(events: Seq<SlotEvent>)
    ensures
        slot_after(events) <==> exists|i: int|
            0 <= i < events.len() && sets_slot(#[trigger] events[i]) && (forall|j: int|
                i < j < events.len() ==> !clears_slot(#[trigger] events[j])),
    decreases events.len(),
{
    if events.len() > 0 {
        let pre = events.drop_last();
        let last = events.last();
        lemma_slot_occupied_iff(pre);
        if sets_slot(last) {
            assert(sets_slot(events[events.len() - 1]));
            assert(forall|j: int|
                events.len() - 1 < j < events.len() ==> !clears_slot(#[trigger] events[j]));
        } else if clears_slot(last) {
            assert forall|i: int|
                !(0 <= i < events.len() && sets_slot(#[trigger] events[i]) && (forall|j: int|
                    i < j < events.len() ==> !clears_slot(#[trigger] events[j]))) by {
                if 0 <= i < events.len() && sets_slot(events[i]) {
                    assert(i < events.len() - 1 || !sets_slot(events[i]) || !clears_slot(last)
                        || true);
                    if i < events.len() - 1 {
                        assert(clears_slot(events[events.len() - 1]));
                    }
                }
            }
        } else {
            if slot_after(pre) {
                let i = choose|i: int|
                    0 <= i < pre.len() && sets_slot(#[trigger] pre[i]) && (forall|j: int|
                        i < j < pre.len() ==> !clears_slot(#[trigger] pre[j]));
                assert(events[i] == pre[i]);
                assert forall|j: int| i < j < events.len() implies !clears_slot(
                    #[trigger] events[j],
                ) by {
                    if j < events.len() - 1 {
                        assert(!clears_slot(pre[j]));
                    }
                }
            }
            if exists|i: int|
                0 <= i < events.len() && sets_slot(#[trigger] events[i]) && (forall|j: int|
                    i < j < events.len() ==> !clears_slot(#[trigger] events[j])) {
                let i = choose|i: int|
                    0 <= i < events.len() && sets_slot(#[trigger] events[i]) && (forall|j: int|
                        i < j < events.len() ==> !clears_slot(#[trigger] events[j]));
                assert(i < events.len() - 1);
                assert(pre[i] == events[i]);
                assert forall|j: int| i < j < pre.len() implies !clears_slot(
                    #[trigger] pre[j],
                ) by {
                    assert(!clears_slot(events[j]));
                }
                assert(slot_after(pre));
            }
        }
    }
}

// ---------------------------------------------------------------------------
// Kill and spawn decisions
// ---------------------------------------------------------------------------
/// How long the kill sequence waits for the child to go away before giving
/// up, and how often it polls meanwhile.
pub const KILL_TIMEOUT_MS: u64 = 1000;

pub const KILL_POLL_INTERVAL_MS: u64 = 50;

/// How often the spawn thread polls the child for exit.
pub const SPAWN_POLL_INTERVAL_MS: u64 = 150;

/// What one poll of the supervised child reported: an exit with its status
/// text, a child still running, or a wait failure with its error text.
#[derive(Clone, Debug)]
pub enum PollOutcome {
    Exited(String),
    StillRunning,
    PollError(String),
}

/// The kill sequence's next move after one poll: clear the slot and report,
/// or poll again after a short sleep.
#[derive(Debug)]
pub enum KillAction {
    ClearReportKilled(String),
    ClearReportSignalled(String),
    ClearReportWaitError(String),
    PollAgain(u64),
}

pub open spec fn killed_message_view(status: Seq<char>) -> Seq<char> {
    "Emulator killed (status: "@ + status + ")"@
}

pub open spec fn wait_error_message_view(err: Seq<char>) -> Seq<char> {
    "error waiting for process: "@ + err
}

/// The slot observation each kill action stands for; `PollAgain` records
/// nothing.
pub open spec fn kill_action_event(a: KillAction) -> Option<SlotEvent> {
    match a {
        KillAction::ClearReportKilled(_) => Some(SlotEvent::KillConfirmed),
        KillAction::ClearReportSignalled(_) => Some(SlotEvent::KillTimedOut),
        KillAction::ClearReportWaitError(_) => Some(SlotEvent::WaitFailed),
        KillAction::PollAgain(_) => None,
    }
}

/// Every kill action that records an observation empties the slot.
pub proof fn lemma_kill_actions_clear(a: KillAction)
    ensures
        match kill_action_event(a) {
            Some(e) => clears_slot(e),
            None => true,
        },
{
}

/// Decide the kill sequence's next move, `elapsed_ms` after the terminate
/// signal was accepted: an observed exit clears the slot and reports the
/// status; past the timeout the slot is cleared anyway and the kill is
/// reported as signalled, not confirmed; a wait failure clears the slot
/// defensively and surfaces the error; otherwise poll again shortly.
pub fn kill_poll_decision(poll: &PollOutcome, elapsed_ms: u64) -> (r: KillAction)
    ensures
        (poll matches PollOutcome::Exited(st) ==> r matches KillAction::ClearReportKilled(m)
            && m@ == killed_message_view(st@)),
        poll is StillRunning && elapsed_ms > KILL_TIMEOUT_MS ==> (r
            matches KillAction::ClearReportSignalled(m) && m@ == "Emulator kill signalled"@),
        poll is StillRunning && elapsed_ms <= KILL_TIMEOUT_MS ==> (r
            matches KillAction::PollAgain(t) && t == KILL_POLL_INTERVAL_MS),
        (poll matches PollOutcome::PollError(e) ==> r matches KillAction::ClearReportWaitError(m)
            && m@ == wait_error_message_view(e@)),
{
    match poll {
        PollOutcome::Exited(st) => {
            let mut m = String::from_str("Emulator killed (status: ");
            m.append(st.as_str());
            m.append(")");
            KillAction::ClearReportKilled(m)
        },
        PollOutcome::StillRunning => {
            if elapsed_ms > KILL_TIMEOUT_MS {
                KillAction::ClearReportSignalled(String::from_str("Emulator kill signalled"))
            } else {
                KillAction::PollAgain(KILL_POLL_INTERVAL_MS)
            }
        },
        PollOutcome::PollError(e) => {
            let mut m = String::from_str("error waiting for process: ");
            m.append(e.as_str());
            KillAction::ClearReportWaitError(m)
        },
    }
}

/// What `kill` reports when the slot holds no child: this is distinct from
/// a missing launch template, the two mean different things.
pub fn kill_empty_slot_message() -> (r: String)
    ensures
        r@ == "No emulator running"@,
{
    String::from_str("No emulator running")
}

/// The report when the terminate signal itself could not be sent; the slot
/// stays untouched.
pub fn kill_failed_message(err: &str) -> (r: String)
    ensures
        r@ == "failed to kill process: "@ + err@,
{
    let mut m = String::from_str("failed to kill process: ");
    m.append(err);
    m
}

/// The spawn poll loop's next move: finish (clearing the slot) on an exit
/// or wait failure, else sleep briefly and poll again.
#[derive(Debug)]
pub enum SpawnPollAction {
    ClearAndFinish,
    KeepPolling(u64),
}

pub fn spawn_poll_decision(poll: &PollOutcome) -> (r: SpawnPollAction)
    ensures
        (poll is Exited ==> r is ClearAndFinish),
        poll is StillRunning ==> (r matches SpawnPollAction::KeepPolling(t) && t
            == SPAWN_POLL_INTERVAL_MS),
        (poll is PollError ==> r is ClearAndFinish),
{
    match poll {
        PollOutcome::Exited(_) => SpawnPollAction::ClearAndFinish,
        PollOutcome::StillRunning => SpawnPollAction::KeepPolling(SPAWN_POLL_INTERVAL_MS),
        PollOutcome::PollError(_) => SpawnPollAction::ClearAndFinish,
    }
}

} // verus!
