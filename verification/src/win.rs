//! Outcome reported by a client when it is offered a window event.

use vstd::prelude::*;

verus! {

/// Whether a client consumed an event or left it for the host to handle.
pub enum EventState {
    Consumed,
    Skipped,
}

impl EventState {
    /// True exactly when the event was left unhandled.
    pub fn is_skipped(&self) -> (r: bool)
        ensures
            r == (self is Skipped),
    {
        match self {
            EventState::Consumed => false,
            EventState::Skipped => true,
        }
    }
}

} // verus!
