use vstd::prelude::*;

use crate::event::Event;
use crate::types::Output;

verus! {

/// A pending delivery: one [`Event`] together with the channel it is to be
/// sent on, as held in the coordinator's pending queue.
pub struct Task {
    pub event: Event,
    pub event_callback: Output,
}

/// The total order used by the pending queue, defined purely over
/// `(scheduled_time, event_id)`: a strictly earlier task always pops
/// first; among tasks scheduled at the same cycle the one with the
/// *larger* event id pops first, so the most recently generated event
/// wins priority over older ones with the same timestamp.
pub open spec fn task_lt(a: Event, b: Event) -> bool {
    ||| a.scheduled_time < b.scheduled_time
    ||| (a.scheduled_time == b.scheduled_time && a.event_id > b.event_id)
}

impl Task {
    pub fn new(event: Event, event_callback: Output) -> (r: Task)
        ensures
            r.event == event,
            r.event_callback == event_callback,
    {
        Task { event, event_callback }
    }

    /// Decides whether `self` pops strictly before `other`.
    pub fn pops_before(&self, other: &Task) -> (r: bool)
        ensures
            r == task_lt(self.event, other.event),
    {
        if self.event.scheduled_time == other.event.scheduled_time {
            self.event.event_id > other.event.event_id
        } else {
            self.event.scheduled_time < other.event.scheduled_time
        }
    }
}

/// The queue order is total: two events with distinct ids are always
/// strictly ordered one way or the other, so which task pops next never
/// depends on thread scheduling or arrival order.
pub proof fn lemma_task_order_total(a: Event, b: Event)
    requires
        a.event_id != b.event_id,
    ensures
        task_lt(a, b) <==> !task_lt(b, a),
{
}

} // verus!
