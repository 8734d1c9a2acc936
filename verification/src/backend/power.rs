//! Resume from sleep and unlocking of the session. Frames captured while the
//! session is locked show the lock screen, and suspend can leave capture
//! sessions stale, so the previews are to be refreshed then.

use vstd::prelude::*;

verus! {

/// Seconds before a lost bus connection is tried again.
pub const RETRY_INTERVAL: u64 = 5;

#[derive(Clone, Copy, Debug, PartialEq, Eq, Structural)]
pub enum Event {
    Resumed,
}

/// A signal of the login manager.
#[derive(Clone, Copy, Debug, PartialEq, Eq, Structural)]
pub enum Signal {
    /// The machine is about to sleep, or has woken up.
    PrepareForSleep { start: bool },
    /// The session was unlocked.
    Unlock,
}

/// What a signal means for the previews.
pub fn event_of(signal: Signal) -> (event: Option<Event>)
    ensures
        event == if signal == (Signal::PrepareForSleep { start: true }) {
            None
        } else {
            Some(Event::Resumed)
        },
{
    match signal {
        Signal::PrepareForSleep { start } => if start {
            None
        } else {
            Some(Event::Resumed)
        },
        Signal::Unlock => Some(Event::Resumed),
    }
}

/// Previews are refreshed when the machine has woken up and when the session is
/// unlocked, and not when the machine goes to sleep.
pub proof fn waking_and_unlocking_refresh(signal: Signal, event: Option<Event>)
    requires
        call_ensures(event_of, (signal,), event),
    ensures
        signal is Unlock ==> event is Some,
        signal matches Signal::PrepareForSleep { start } ==> event is Some == !start,
{
}

} // verus!
