//! Event multiplexing: the decisions of the background polling loop that
//! feeds keyboard input, periodic ticks and shutdown into one ordered
//! channel, and the channel model itself.
//!
//! The blocking poll, the thread and the real channel live outside the
//! library; they hand in the poll outcome and the clock readings as plain
//! values and push exactly the events this module decides on, in the order
//! it decides them.

use vstd::prelude::*;

verus! {

/// A logical key binding, decoupled from any terminal key code.
#[derive(Clone, Copy, Debug, PartialEq, Eq, Structural)]
pub enum KeyBinding {
    Exit,
    MoveUp,
    MoveDown,
    EnterDirectory,
    GoUp,
    Transfer,
    Delete,
    Confirm,
    Cancel,
    Other,
}

/// One multiplexed event: a key for the application, a periodic tick, or the
/// request to shut down.
#[derive(Clone, Copy, Debug, PartialEq, Eq, Structural)]
pub enum Event {
    Input(KeyBinding),
    Tick,
    Shutdown,
}

/// How a key is classified: the exit key becomes `Shutdown`, every other key
/// is passed through as `Input`.
pub open spec fn classify_key_spec(key: KeyBinding) -> Event {
    if key == KeyBinding::Exit {
        Event::Shutdown
    } else {
        Event::Input(key)
    }
}

/// Classifies one polled key.
pub fn classify_key(key: KeyBinding) -> (e: Event)
    ensures
        e == classify_key_spec(key),
{
    if key == KeyBinding::Exit {
        Event::Shutdown
    } else {
        Event::Input(key)
    }
}

/// Whether a tick is due: the time since the last tick has reached the tick
/// interval.
pub open spec fn tick_due(now_ms: u64, last_tick_ms: u64, tick_rate_ms: u64) -> bool {
    now_ms - last_tick_ms >= tick_rate_ms
}

/// How long the next poll may wait: the remainder of the tick interval, or
/// nothing when the interval has already elapsed.
pub fn poll_timeout_ms(now_ms: u64, last_tick_ms: u64, tick_rate_ms: u64) -> (t: u64)
    requires
        last_tick_ms <= now_ms,
    ensures
        t == if now_ms - last_tick_ms <= tick_rate_ms {
            tick_rate_ms - (now_ms - last_tick_ms)
        } else {
            0int
        },
{
    let elapsed = now_ms - last_tick_ms;
    if elapsed <= tick_rate_ms {
        tick_rate_ms - elapsed
    } else {
        0
    }
}

/// The events one poll cycle emits: the classified key, if one arrived,
/// followed by a tick when one is due.
pub open spec fn cycle_events(
    key: Option<KeyBinding>,
    now_ms: u64,
    last_tick_ms: u64,
    tick_rate_ms: u64,
) -> Seq<Event> {
    let keyed = match key {
        Option::Some(k) => seq![classify_key_spec(k)],
        Option::None => Seq::empty(),
    };
    if tick_due(now_ms, last_tick_ms, tick_rate_ms) {
        keyed.push(Event::Tick)
    } else {
        keyed
    }
}

/// One cycle of the polling loop: classifies the polled key, emits a tick
/// when the interval has elapsed, and reports the new last-tick instant —
/// advanced to `now_ms` exactly when a tick was emitted.
pub fn poll_cycle(
    key: Option<KeyBinding>,
    now_ms: u64,
    last_tick_ms: u64,
    tick_rate_ms: u64,
) -> (r: (Vec<Event>, u64))
    requires
        last_tick_ms <= now_ms,
    ensures
        r.0@ == cycle_events(key, now_ms, last_tick_ms, tick_rate_ms),
        r.1 == if tick_due(now_ms, last_tick_ms, tick_rate_ms) {
            now_ms
        } else {
            last_tick_ms
        },
{
    let mut emitted: Vec<Event> = Vec::new();
    match key {
        Some(k) => emitted.push(classify_key(k)),
        None => (),
    }
    if now_ms - last_tick_ms >= tick_rate_ms {
        emitted.push(Event::Tick);
        proof {
            assert(emitted@ =~= cycle_events(key, now_ms, last_tick_ms, tick_rate_ms));
        }
        (emitted, now_ms)
    } else {
        proof {
            assert(emitted@ =~= cycle_events(key, now_ms, last_tick_ms, tick_rate_ms));
        }
        (emitted, last_tick_ms)
    }
}

/// The single-producer, single-consumer channel between the poller and the
/// application loop, modelled as the ordered sequence of events it holds.
/// Sends are first-in first-out; a send after the receiving side has gone
/// away is a silent no-op, as the producer requires no acknowledgment.
pub struct EventQueue {
    items: Vec<Event>,
    receiver_alive: bool,
}

impl View for EventQueue {
    type V = Seq<Event>;

    closed spec fn view(&self) -> Seq<Event> {
        self.items@
    }
}

impl EventQueue {
    /// Whether the receiving side is still there.
    pub closed spec fn receiver_alive(&self) -> bool {
        self.receiver_alive
    }

    /// A fresh, empty channel with a live receiver.
    pub fn new() -> (q: EventQueue)
        ensures
            q@ == Seq::<Event>::empty(),
            q.receiver_alive(),
    {
        EventQueue { items: Vec::new(), receiver_alive: true }
    }

    /// Sends one event: appended in order while the receiver is alive,
    /// silently dropped once it is gone.
    pub fn send(&mut self, e: Event)
        ensures
            final(self)@ == if old(self).receiver_alive() {
                old(self)@.push(e)
            } else {
                old(self)@
            },
            final(self).receiver_alive() == old(self).receiver_alive(),
    {
        if self.receiver_alive {
            self.items.push(e);
        }
    }

    /// Receives the oldest pending event, first-in first-out.
    pub fn recv(&mut self) -> (r: Option<Event>)
        ensures
            match r {
                Option::Some(e) => old(self)@.len() > 0 && e == old(self)@[0] && final(self)@
                    == old(self)@.skip(1),
                Option::None => old(self)@.len() == 0 && final(self)@ == old(self)@,
            },
            final(self).receiver_alive() == old(self).receiver_alive(),
    {
        if self.items.len() > 0 {
            let e = self.items.remove(0);
            Some(e)
        } else {
            None
        }
    }

    /// The receiving side goes away; pending events stay but later sends are
    /// dropped.
    pub fn drop_receiver(&mut self)
        ensures
            final(self)@ == old(self)@,
            !final(self).receiver_alive(),
    {
        self.receiver_alive = false;
    }

    /// How many events are pending.
    pub fn len(&self) -> (n: usize)
        ensures
            n == self@.len(),
    {
        self.items.len()
    }
}

/// Delivery order is generation order: sending the events of `evs` one after
/// another onto a live channel, ahead of a consumer that drains it, hands
/// the consumer exactly `evs`, first-in first-out.
pub proof fn lemma_fifo_delivery(q0: Seq<Event>, evs: Seq<Event>)
    ensures
        sent_all(q0, evs) == q0 + evs,
    decreases evs.len(),
{
    if evs.len() == 0 {
        assert(sent_all(q0, evs) =~= q0 + evs);
    } else {
        lemma_fifo_delivery(q0.push(evs[0]), evs.skip(1));
        assert(q0.push(evs[0]) + evs.skip(1) =~= q0 + evs);
    }
}

/// The channel contents after sending every event of `evs` in order onto a
/// live channel holding `q0`.
pub open spec fn sent_all(q0: Seq<Event>, evs: Seq<Event>) -> Seq<Event>
    decreases evs.len(),
{
    if evs.len() == 0 {
        q0
    } else {
        sent_all(q0.push(evs[0]), evs.skip(1))
    }
}

} // verus!
