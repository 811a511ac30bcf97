//! The part of a stored oracle event that settlement reads and writes.
use vstd::prelude::*;

verus! {

/// The settlement state of an oracle event.
#[derive(Clone, Copy, Debug, PartialEq, Eq, Structural)]
pub struct EventState {
    /// Set once the prize pool has been paid out.
    pub is_finalized: bool,
    /// Ledger timestamp from which the event may be settled.
    pub end_time: u64,
    /// Tokens held for the winners: the creator's seed plus every entry fee.
    pub prize_pool: i128,
}

/// The state of an event after its settlement: marked finalized, with nothing
/// left in its pool.
pub open spec fn settled(event: EventState) -> EventState {
    EventState { is_finalized: true, end_time: event.end_time, prize_pool: 0 }
}

impl EventState {
    /// The state that settling this event leaves behind.
    pub fn settled(&self) -> (r: EventState)
        ensures
            r == settled(*self),
    {
        EventState { is_finalized: true, end_time: self.end_time, prize_pool: 0 }
    }
}

/// Settling marks the event finalized, empties its pool, and keeps its end time.
pub proof fn law_settling_empties_the_pool(event: EventState)
    ensures
        settled(event).is_finalized,
        settled(event).prize_pool == 0,
        settled(event).end_time == event.end_time,
{
}

} // verus!
