//! Read-only queries on events.
use vstd::prelude::*;
use crate::event::{settled, EventState};

verus! {

/// Why a query about an event was refused.
#[derive(Clone, Copy, Debug, PartialEq, Eq, Structural)]
pub enum ViewError {
    /// No event is stored under the requested id.
    EventNotFound,
}

/// What a query for the live prize pool answers, given what is stored under
/// the event's id.
pub open spec fn prize_pool_answer(stored: Option<EventState>) -> Result<i128, ViewError> {
    match stored {
        Some(event) => Ok(event.prize_pool),
        None => Err(ViewError::EventNotFound),
    }
}

/// The live prize pool of the event stored under an id: its current pool, or
/// `EventNotFound` where nothing is stored.
pub fn prize_pool(stored: &Option<EventState>) -> (r: Result<i128, ViewError>)
    ensures
        r == prize_pool_answer(*stored),
{
    match stored {
        Some(event) => Ok(event.prize_pool),
        None => Err(ViewError::EventNotFound),
    }
}

/// Once an event has been settled, a query for its prize pool answers 0.
pub proof fn law_settled_pool_reads_zero(event: EventState)
    ensures
        prize_pool_answer(Some(settled(event))) == Ok::<i128, ViewError>(0),
{
}

/// The query reports the stored pool unchanged, and refuses exactly when
/// nothing is stored.
pub proof fn law_query_reports_the_stored_pool(event: EventState)
    ensures
        prize_pool_answer(Some(event)) is Ok,
        prize_pool_answer(Some(event)) == Ok::<i128, ViewError>(event.prize_pool),
        prize_pool_answer(None) == Err::<i128, ViewError>(ViewError::EventNotFound),
{
}

} // verus!
