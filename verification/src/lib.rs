//! A cycle-accurate discrete-event simulation kernel.
//!
//! Components exchange timestamped events over publish/subscribe channel
//! pairs ([`tx::Tx`]/[`rx::Rx`]); a central coordinator ([`sim_manager::SimManager`])
//! owns simulated time, the pending-event queue, the in-flight
//! acknowledgment set, event-id allocation and the termination vote.

pub mod channel;
pub mod component;
pub mod clock_event;
pub mod error;
pub mod event;
pub mod rx;
pub mod sim_dispatcher;
pub mod sim_manager;
pub mod task;
pub mod tx;
pub mod types;
