use s3tui::events::{classify_key, poll_cycle, poll_timeout_ms, Event, EventQueue, KeyBinding};
use s3tui::nav::{complete_operation, move_selection, nav_step, run_to_shutdown, NavAction, NavState};

#[test]
fn exit_key_becomes_shutdown() {
    assert_eq!(classify_key(KeyBinding::Exit), Event::Shutdown);
    assert_eq!(classify_key(KeyBinding::MoveUp), Event::Input(KeyBinding::MoveUp));
}

#[test]
fn events_delivered_in_generation_order_until_shutdown() {
    let mut q = EventQueue::new();
    q.send(Event::Input(KeyBinding::MoveDown));
    q.send(Event::Tick);
    q.send(Event::Input(KeyBinding::EnterDirectory));
    q.send(Event::Shutdown);
    q.send(Event::Tick);
    let handled = run_to_shutdown(&mut q);
    assert_eq!(
        handled,
        vec![
            Event::Input(KeyBinding::MoveDown),
            Event::Tick,
            Event::Input(KeyBinding::EnterDirectory),
            Event::Shutdown,
        ]
    );
    assert_eq!(q.len(), 1);
}

#[test]
fn drain_without_shutdown_handles_everything() {
    let mut q = EventQueue::new();
    q.send(Event::Tick);
    q.send(Event::Input(KeyBinding::Other));
    let handled = run_to_shutdown(&mut q);
    assert_eq!(handled, vec![Event::Tick, Event::Input(KeyBinding::Other)]);
    assert_eq!(q.len(), 0);
}

#[test]
fn send_after_receiver_gone_is_silent() {
    let mut q = EventQueue::new();
    q.send(Event::Tick);
    q.drop_receiver();
    q.send(Event::Shutdown);
    assert_eq!(q.len(), 1);
}

#[test]
fn poll_cycle_emits_key_then_tick() {
    let (events, last) = poll_cycle(Some(KeyBinding::Exit), 1000, 700, 200);
    assert_eq!(events, vec![Event::Shutdown, Event::Tick]);
    assert_eq!(last, 1000);
}

#[test]
fn poll_cycle_without_due_tick_keeps_instant() {
    let (events, last) = poll_cycle(Some(KeyBinding::MoveUp), 1000, 900, 200);
    assert_eq!(events, vec![Event::Input(KeyBinding::MoveUp)]);
    assert_eq!(last, 900);
    let (events, last) = poll_cycle(None, 1000, 900, 200);
    assert_eq!(events, Vec::<Event>::new());
    assert_eq!(last, 900);
}

#[test]
fn poll_timeout_is_interval_remainder() {
    assert_eq!(poll_timeout_ms(1000, 900, 200), 100);
    assert_eq!(poll_timeout_ms(1000, 1000, 200), 200);
    assert_eq!(poll_timeout_ms(1000, 700, 200), 0);
}

#[test]
fn delete_needs_confirmation() {
    let (s, a) = nav_step(NavState::Idle, Event::Input(KeyBinding::Delete));
    assert_eq!(s, NavState::ConfirmingDelete);
    assert_eq!(a, NavAction::RequestConfirm);
    let (s, a) = nav_step(s, Event::Input(KeyBinding::Confirm));
    assert_eq!(s, NavState::Idle);
    assert_eq!(a, NavAction::ExecuteDelete);
}

#[test]
fn cancel_leaves_confirmation_without_deleting() {
    let (s, a) = nav_step(NavState::ConfirmingDelete, Event::Input(KeyBinding::Cancel));
    assert_eq!(s, NavState::Idle);
    assert_eq!(a, NavAction::Redraw);
}

#[test]
fn shutdown_is_terminal_from_any_state() {
    for s in [
        NavState::Idle,
        NavState::Listing,
        NavState::Transferring,
        NavState::ConfirmingDelete,
        NavState::Stopped,
    ] {
        let (next, action) = nav_step(s, Event::Shutdown);
        assert_eq!(next, NavState::Stopped);
        assert_eq!(action, NavAction::Teardown);
    }
    let (next, action) = nav_step(NavState::Stopped, Event::Input(KeyBinding::EnterDirectory));
    assert_eq!(next, NavState::Stopped);
    assert_eq!(action, NavAction::Ignore);
}

#[test]
fn input_ignored_while_call_in_flight() {
    let (s, a) = nav_step(NavState::Listing, Event::Input(KeyBinding::Delete));
    assert_eq!(s, NavState::Listing);
    assert_eq!(a, NavAction::Ignore);
    let (s, a) = nav_step(NavState::Transferring, Event::Input(KeyBinding::MoveUp));
    assert_eq!(s, NavState::Transferring);
    assert_eq!(a, NavAction::Ignore);
}

#[test]
fn completion_returns_to_idle_even_on_failure() {
    assert_eq!(complete_operation(NavState::Listing, true), NavState::Idle);
    assert_eq!(complete_operation(NavState::Transferring, false), NavState::Idle);
    assert_eq!(complete_operation(NavState::Stopped, false), NavState::Stopped);
}

#[test]
fn selection_stays_in_bounds() {
    assert_eq!(move_selection(0, 0, true), 0);
    assert_eq!(move_selection(0, 0, false), 0);
    assert_eq!(move_selection(3, 0, true), 0);
    assert_eq!(move_selection(3, 1, true), 0);
    assert_eq!(move_selection(3, 2, false), 2);
    assert_eq!(move_selection(3, 1, false), 2);
}
