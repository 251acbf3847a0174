use vstd::prelude::*;

use crate::event::{Event, Payload};
use crate::types::{Cycle, EventId};

verus! {

/// A synthetic per-cycle clock tick. It carries no data payload: it is a
/// bare notification, used as the call back for clock tick handlers.
#[derive(Clone, Copy, Debug, PartialEq, Eq, Structural)]
pub struct ClockEvent {
    pub event_id: EventId,
    pub scheduled_time: Cycle,
}

impl ClockEvent {
    pub fn new(scheduled_time: Cycle, event_id: EventId) -> (r: ClockEvent)
        ensures
            r == (ClockEvent { event_id, scheduled_time }),
    {
        ClockEvent { event_id, scheduled_time }
    }

    pub fn get_event_id(&self) -> (r: EventId)
        ensures
            r == self.event_id,
    {
        self.event_id
    }

    pub fn get_scheduled_time(&self) -> (r: Cycle)
        ensures
            r == self.scheduled_time,
    {
        self.scheduled_time
    }

    /// The deliverable form of the tick: an event with the `Unit` payload.
    pub fn to_event(&self) -> (r: Event)
        ensures
            r == (Event {
                event_id: self.event_id,
                scheduled_time: self.scheduled_time,
                payload: Payload::Unit,
            }),
    {
        Event {
            event_id: self.event_id,
            scheduled_time: self.scheduled_time,
            payload: Payload::Unit,
        }
    }
}

} // verus!
