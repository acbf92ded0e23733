//! The life of the guest, from entry to halt.
//!
//! The machine is either running or halted. It halts by one trap
//! instruction and by nothing else: when the entry function has done its
//! work, when program logic panics, or when the allocator refuses a request.
//! Once halted it stays halted and does nothing more. This module decides;
//! the code around it carries the decisions out.

use vstd::prelude::*;
use crate::error::AllocError;

verus! {

/// The two states of the machine.
#[derive(Clone, Copy, Debug, PartialEq, Eq, Structural)]
pub enum RunState {
    Running,
    Halted,
}

/// What can happen while the guest runs.
#[derive(Clone, Copy, Debug, PartialEq, Eq, Structural)]
pub enum Event {
    /// The entry stub has passed control to the entry function, with the
    /// address of the input buffer.
    Entered { calldata: usize },
    /// The receipt verifier has answered.
    Verified { accepted: bool },
    /// An invariant was violated somewhere in program logic.
    Panicked,
    /// The allocator has refused a request.
    AllocationFailed(AllocError),
}

/// What the code around the library is to do next.
#[derive(Clone, Copy, Debug, PartialEq, Eq, Structural)]
pub enum Action {
    /// Put the boot request before the receipt verifier and report its
    /// answer.
    Verify,
    /// Execute the trap instruction.
    Trap,
    /// Nothing: the machine has halted.
    Idle,
}

/// The transition table: the state after `event` arrives in `state`, and the
/// action it calls for.
pub open spec fn react(state: RunState, event: Event) -> (RunState, Action) {
    match state {
        RunState::Halted => (RunState::Halted, Action::Idle),
        RunState::Running => match event {
            Event::Entered { .. } => (RunState::Running, Action::Verify),
            Event::Verified { .. } => (RunState::Halted, Action::Trap),
            Event::Panicked => (RunState::Halted, Action::Trap),
            Event::AllocationFailed(_) => (RunState::Halted, Action::Trap),
        },
    }
}

/// The state after a run of events, starting from `state`, and the action
/// taken at each event.
pub open spec fn run(state: RunState, events: Seq<Event>) -> (RunState, Seq<Action>)
    decreases events.len(),
{
    if events.len() == 0 {
        (state, Seq::empty())
    } else {
        let (next, action) = react(state, events.first());
        let (last, actions) = run(next, events.drop_first());
        (last, seq![action] + actions)
    }
}

/// Takes one event in one state, and returns the next state and the action
/// to carry out.
pub fn step(state: RunState, event: Event) -> (r: (RunState, Action))
    ensures
        r == react(state, event),
    no_unwind
{
    match state {
        RunState::Halted => (RunState::Halted, Action::Idle),
        RunState::Running => match event {
            Event::Entered { .. } => (RunState::Running, Action::Verify),
            _ => (RunState::Halted, Action::Trap),
        },
    }
}

/// The machine traps exactly when it passes from running to halted, and a
/// halted machine stays halted and idle whatever arrives.
pub proof fn lemma_trap_is_the_only_way_out(state: RunState, event: Event)
    ensures
        react(state, event).1 == Action::Trap <==> state == RunState::Running && react(
            state,
            event,
        ).0 == RunState::Halted,
        state == RunState::Halted ==> react(state, event) == (RunState::Halted, Action::Idle),
        react(state, event).0 == RunState::Running ==> state == RunState::Running,
{
}

/// Every event but the entry halts a running machine, by one trap. A panic
/// and a refusal by the allocator end in the same state by the same action:
/// from outside they cannot be told apart.
pub proof fn lemma_fatal_events_halt(event: Event)
    ensures
        event is Entered ==> react(RunState::Running, event) == (
            RunState::Running,
            Action::Verify,
        ),
        !(event is Entered) ==> react(RunState::Running, event) == (
            RunState::Halted,
            Action::Trap,
        ),
        forall|e: AllocError|
            react(RunState::Running, Event::Panicked) == #[trigger] react(
                RunState::Running,
                Event::AllocationFailed(e),
            ),
{
}

/// A run takes one action for each event.
pub proof fn lemma_run_len(state: RunState, events: Seq<Event>)
    ensures
        run(state, events).1.len() == events.len(),
    decreases events.len(),
{
    if events.len() > 0 {
        lemma_run_len(react(state, events.first()).0, events.drop_first());
    }
}

/// From a halted machine no run of events draws anything but idleness.
pub proof fn lemma_halted_stays_idle(events: Seq<Event>, i: int)
    requires
        0 <= i < events.len(),
    ensures
        run(RunState::Halted, events).0 == RunState::Halted,
        run(RunState::Halted, events).1[i] == Action::Idle,
    decreases events.len(),
{
    let rest = events.drop_first();
    lemma_run_len(RunState::Halted, rest);
    lemma_halted_all_the_way(rest);
    if i > 0 {
        lemma_halted_stays_idle(rest, i - 1);
        assert(run(RunState::Halted, events).1[i] == run(RunState::Halted, rest).1[i - 1]);
    }
}

/// A halted machine is still halted after any run of events.
pub proof fn lemma_halted_all_the_way(events: Seq<Event>)
    ensures
        run(RunState::Halted, events).0 == RunState::Halted,
    decreases events.len(),
{
    if events.len() > 0 {
        lemma_halted_all_the_way(events.drop_first());
    }
}

/// In any run the trap instruction is executed at most once, and nothing is
/// done after it: every action that follows a trap is idle.
pub proof fn lemma_nothing_after_the_trap(state: RunState, events: Seq<Event>, i: int, j: int)
    requires
        0 <= i < j < events.len(),
        run(state, events).1[i] == Action::Trap,
    ensures
        run(state, events).1[j] == Action::Idle,
    decreases events.len(),
{
    let next = react(state, events.first()).0;
    let rest = events.drop_first();
    lemma_run_len(next, rest);
    assert(run(state, events).1[j] == run(next, rest).1[j - 1]);
    if i == 0 {
        lemma_halted_stays_idle(rest, j - 1);
    } else {
        assert(run(state, events).1[i] == run(next, rest).1[i - 1]);
        lemma_nothing_after_the_trap(next, rest, i - 1, j - 1);
    }
}

/// A run from a running machine ends halted exactly when it has trapped.
pub proof fn lemma_halted_means_trapped(events: Seq<Event>)
    ensures
        run(RunState::Running, events).0 == RunState::Halted <==> exists|i: int|
            0 <= i < events.len() && #[trigger] run(RunState::Running, events).1[i]
                == Action::Trap,
    decreases events.len(),
{
    if events.len() > 0 {
        let next = react(RunState::Running, events.first()).0;
        let rest = events.drop_first();
        let actions = run(RunState::Running, events).1;
        lemma_run_len(next, rest);
        assert forall|k: int| 0 < k < events.len() implies #[trigger] actions[k] == run(
            next,
            rest,
        ).1[k - 1] by {}
        if next == RunState::Halted {
            lemma_halted_all_the_way(rest);
            assert(actions[0] == Action::Trap);
        } else {
            lemma_halted_means_trapped(rest);
            if run(RunState::Running, rest).0 == RunState::Halted {
                let k = choose|k: int|
                    0 <= k < rest.len() && #[trigger] run(RunState::Running, rest).1[k]
                        == Action::Trap;
                assert(actions[k + 1] == Action::Trap);
            } else {
                assert forall|i: int| 0 <= i < events.len() implies #[trigger] actions[i]
                    != Action::Trap by {
                    if i > 0 {
                        assert(actions[i] == run(RunState::Running, rest).1[i - 1]);
                    }
                }
            }
        }
    }
}

} // verus!
