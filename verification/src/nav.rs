//! The application loop's navigation logic: a state machine from the
//! current state and the next multiplexed event to the next state and the
//! action the loop must perform.
//!
//! Events are handled strictly one at a time: while a provider call is in
//! flight the machine ignores further input, and its completion returns the
//! machine to `Idle` whether the call succeeded or failed — a provider error
//! becomes a status message, never an abort. `Shutdown` is honoured from
//! every state and is terminal.

use vstd::prelude::*;
use crate::events::{Event, KeyBinding};

verus! {

/// Where the application loop stands.
#[derive(Clone, Copy, Debug, PartialEq, Eq, Structural)]
pub enum NavState {
    Idle,
    Listing,
    Transferring,
    ConfirmingDelete,
    Stopped,
}

/// What the loop must do next.
#[derive(Clone, Copy, Debug, PartialEq, Eq, Structural)]
pub enum NavAction {
    Ignore,
    Redraw,
    MoveSelectionUp,
    MoveSelectionDown,
    OpenListing,
    BeginTransfer,
    RequestConfirm,
    ExecuteDelete,
    Teardown,
}

/// The transition relation of the navigation machine.
pub open spec fn nav_step_spec(s: NavState, e: Event) -> (NavState, NavAction) {
    match e {
        Event::Shutdown => (NavState::Stopped, NavAction::Teardown),
        Event::Tick => match s {
            NavState::Stopped => (NavState::Stopped, NavAction::Ignore),
            other => (other, NavAction::Redraw),
        },
        Event::Input(key) => match s {
            NavState::Idle => match key {
                KeyBinding::MoveUp => (NavState::Idle, NavAction::MoveSelectionUp),
                KeyBinding::MoveDown => (NavState::Idle, NavAction::MoveSelectionDown),
                KeyBinding::EnterDirectory => (NavState::Listing, NavAction::OpenListing),
                KeyBinding::GoUp => (NavState::Listing, NavAction::OpenListing),
                KeyBinding::Transfer => (NavState::Transferring, NavAction::BeginTransfer),
                KeyBinding::Delete => (NavState::ConfirmingDelete, NavAction::RequestConfirm),
                other => (NavState::Idle, NavAction::Ignore),
            },
            NavState::ConfirmingDelete => match key {
                KeyBinding::Confirm => (NavState::Idle, NavAction::ExecuteDelete),
                KeyBinding::Cancel => (NavState::Idle, NavAction::Redraw),
                other => (NavState::ConfirmingDelete, NavAction::Ignore),
            },
            other => (other, NavAction::Ignore),
        },
    }
}

/// One step of the navigation machine.
pub fn nav_step(s: NavState, e: Event) -> (r: (NavState, NavAction))
    ensures
        r == nav_step_spec(s, e),
{
    match e {
        Event::Shutdown => (NavState::Stopped, NavAction::Teardown),
        Event::Tick => match s {
            NavState::Stopped => (NavState::Stopped, NavAction::Ignore),
            other => (other, NavAction::Redraw),
        },
        Event::Input(key) => match s {
            NavState::Idle => match key {
                KeyBinding::MoveUp => (NavState::Idle, NavAction::MoveSelectionUp),
                KeyBinding::MoveDown => (NavState::Idle, NavAction::MoveSelectionDown),
                KeyBinding::EnterDirectory => (NavState::Listing, NavAction::OpenListing),
                KeyBinding::GoUp => (NavState::Listing, NavAction::OpenListing),
                KeyBinding::Transfer => (NavState::Transferring, NavAction::BeginTransfer),
                KeyBinding::Delete => (NavState::ConfirmingDelete, NavAction::RequestConfirm),
                _ => (NavState::Idle, NavAction::Ignore),
            },
            NavState::ConfirmingDelete => match key {
                KeyBinding::Confirm => (NavState::Idle, NavAction::ExecuteDelete),
                KeyBinding::Cancel => (NavState::Idle, NavAction::Redraw),
                _ => (NavState::ConfirmingDelete, NavAction::Ignore),
            },
            other => (other, NavAction::Ignore),
        },
    }
}

/// A provider call finished, well or badly: the loop returns to `Idle` and
/// surfaces any error as a status message on the next redraw. A stopped loop
/// stays stopped.
pub fn complete_operation(s: NavState, success: bool) -> (next: NavState)
    ensures
        next == (if s == NavState::Stopped {
            NavState::Stopped
        } else {
            NavState::Idle
        }),
{
    match s {
        NavState::Stopped => NavState::Stopped,
        _ => NavState::Idle,
    }
}

/// Shutdown is terminal: it stops the machine from every state, and no
/// event moves a stopped machine or makes it act again.
pub proof fn lemma_shutdown_terminal(s: NavState, e: Event)
    ensures
        nav_step_spec(s, Event::Shutdown).0 == NavState::Stopped,
        nav_step_spec(NavState::Stopped, e).0 == NavState::Stopped,
        e != Event::Shutdown ==> nav_step_spec(NavState::Stopped, e).1 == NavAction::Ignore,
{
}

/// Serialization: while a provider call is in flight — the machine is
/// `Listing` or `Transferring` — no input event is acted on; only its
/// completion, a tick redraw, or shutdown moves the loop.
pub proof fn lemma_one_event_at_a_time(s: NavState, key: KeyBinding)
    requires
        s == NavState::Listing || s == NavState::Transferring,
    ensures
        nav_step_spec(s, Event::Input(key)).0 == s,
        nav_step_spec(s, Event::Input(key)).1 == NavAction::Ignore,
{
}

/// Moves the selection cursor one row, staying inside the listing: the
/// cursor never leaves `0 .. len` and moves by exactly one row when it can.
pub fn move_selection(len: usize, idx: usize, up: bool) -> (r: usize)
    requires
        len == 0 ==> idx == 0,
        len > 0 ==> idx < len,
    ensures
        len == 0 ==> r == 0,
        len > 0 ==> r < len,
        up && idx > 0 ==> r == idx - 1,
        up && idx == 0 ==> r == 0,
        !up && idx + 1 < len ==> r == idx + 1,
        !up && len > 0 && idx + 1 == len ==> r == idx,
{
    if up {
        if idx > 0 {
            idx - 1
        } else {
            0
        }
    } else {
        if len > 0 && idx + 1 < len {
            idx + 1
        } else {
            idx
        }
    }
}

/// The events the loop actually processes out of a pending sequence: every
/// event up to and including the first `Shutdown`, and nothing after it.
pub open spec fn processed_prefix(evs: Seq<Event>) -> Seq<Event>
    decreases evs.len(),
{
    if evs.len() == 0 {
        Seq::empty()
    } else if evs[0] == Event::Shutdown {
        seq![Event::Shutdown]
    } else {
        seq![evs[0]] + processed_prefix(evs.skip(1))
    }
}

/// Drains the channel as the application loop does: one event at a time, in
/// delivery order, stopping at the first `Shutdown`. Events sent after the
/// shutdown stay in the channel untouched.
pub fn run_to_shutdown(q: &mut crate::events::EventQueue) -> (handled: Vec<Event>)
    ensures
        handled@ == processed_prefix(old(q)@),
        final(q)@ == old(q)@.skip(handled@.len() as int),
{
    let mut handled: Vec<Event> = Vec::new();
    proof {
        assert(old(q)@.skip(0) =~= q@);
        assert(handled@ + processed_prefix(q@) =~= processed_prefix(old(q)@));
    }
    loop
        invariant
            old(q)@.skip(handled@.len() as int) == q@,
            handled@.len() <= old(q)@.len(),
            processed_prefix(old(q)@) == handled@ + processed_prefix(q@),
            forall|i: int| 0 <= i < handled@.len() ==> #[trigger] handled@[i] != Event::Shutdown,
            q.receiver_alive() == old(q).receiver_alive(),
        decreases q@.len(),
    {
        let ghost pending = q@;
        match q.recv() {
            None => {
                proof {
                    assert(processed_prefix(pending) =~= Seq::<Event>::empty());
                    assert(handled@ + processed_prefix(pending) =~= handled@);
                }
                return handled;
            },
            Some(e) => {
                let ghost before = handled@;
                handled.push(e);
                if let Event::Shutdown = e {
                    proof {
                        assert(processed_prefix(pending) =~= seq![Event::Shutdown]);
                        assert(before + processed_prefix(pending) =~= handled@);
                        assert(old(q)@.skip(before.len() as int).skip(1) =~= old(q)@.skip(
                            handled@.len() as int,
                        ));
                    }
                    return handled;
                }
                proof {
                    assert(processed_prefix(pending) =~= seq![e] + processed_prefix(q@));
                    assert(before + (seq![e] + processed_prefix(q@)) =~= handled@ + processed_prefix(
                        q@,
                    ));
                    assert(old(q)@.skip(before.len() as int).skip(1) =~= old(q)@.skip(
                        handled@.len() as int,
                    ));
                }
            },
        }
    }
}

} // verus!
