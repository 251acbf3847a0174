use vstd::prelude::*;

use crate::types::{Cycle, EventId};

verus! {

/// The closed set of payload kinds carried by events.
///
/// `Unit` is a bare notification without data, used for the synthetic
/// per-cycle clock ticks; `Packet` is a data-bearing payload.
#[derive(Clone, Copy, Debug, PartialEq, Eq, Structural)]
pub enum Payload {
    Unit,
    Packet { packet_id: u64, is_last: bool },
}

impl Default for Payload {
    /// The value a receiving channel holds before anything has arrived.
    fn default() -> (r: Payload)
        ensures
            r == Payload::Unit,
    {
        Payload::Unit
    }
}

/// An immutable, identity-bearing, timestamped unit of data.
#[derive(Clone, Copy, Debug, PartialEq, Eq, Structural)]
pub struct Event {
    pub event_id: EventId,
    pub scheduled_time: Cycle,
    pub payload: Payload,
}

impl Event {
    pub fn new(event_id: EventId, scheduled_time: Cycle, payload: Payload) -> (r: Event)
        ensures
            r == (Event { event_id, scheduled_time, payload }),
    {
        Event { event_id, scheduled_time, payload }
    }

    pub fn get_event_id(&self) -> (r: EventId)
        ensures
            r == self.event_id,
    {
        self.event_id
    }

    pub fn get_scheduled_time(&self) -> (r: Cycle)
        ensures
            r == self.scheduled_time,
    {
        self.scheduled_time
    }

    pub fn get_payload(&self) -> (r: Payload)
        ensures
            r == self.payload,
    {
        self.payload
    }
}

/// Capability of a value to be wrapped into a timestamped [`Event`].
pub trait EventValue {
    /// The payload the built event will carry.
    spec fn as_payload(&self) -> Payload;

    fn build_event(&self, event_id: EventId, scheduled_time: Cycle) -> (r: Event)
        ensures
            r.event_id == event_id,
            r.scheduled_time == scheduled_time,
            r.payload == self.as_payload(),
    ;
}

impl EventValue for Payload {
    open spec fn as_payload(&self) -> Payload {
        *self
    }

    fn build_event(&self, event_id: EventId, scheduled_time: Cycle) -> (r: Event) {
        Event { event_id, scheduled_time, payload: *self }
    }
}

} // verus!
