use vstd::prelude::*;

use crate::sim_manager::SimManager;
use crate::types::ComponentId;

verus! {

/// The capability every simulated block must implement to be drivable by
/// a dispatcher and to interact with the coordinator.
pub trait Component {
    /// Called once before the start of the simulation. This is the time
    /// for a component to configure itself with the coordinator, such as
    /// registering clock tick interest or a termination hold.
    fn init(&mut self, mgr: &mut SimManager);

    /// Clears transient per-run state.
    fn reset(&mut self);

    /// One non-blocking unit of reactive work: check receive channels,
    /// react, acknowledge. Continuously called by the component's
    /// dispatcher; it must not block for a prolonged period of time.
    fn poll_recv(&mut self, mgr: &mut SimManager);

    /// Stable identity used for the termination vote.
    fn get_component_id(&self) -> ComponentId;
}

} // verus!
