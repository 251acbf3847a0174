use vstd::prelude::*;

use crate::event::Event;

verus! {

/// Identity of a component, used for the termination vote.
pub type ComponentId = u64;

/// Globally unique, strictly increasing identifier of an event,
/// allocated exclusively by the coordinator.
pub type EventId = u128;

/// Discrete unit of simulated time.
pub type Cycle = u128;

/// Receiving end of an event channel.
pub type Input = crossbeam_channel::Receiver<Event>;

/// Sending end of an event channel.
pub type Output = crossbeam_channel::Sender<Event>;

} // verus!
