use vstd::prelude::*;

verus! {

/// The single coordinator-level error kind.
///
/// It surfaces the conditions the coordinator treats as fatal protocol
/// violations — delivering a task scheduled strictly before the current
/// cycle (a time fault), acknowledging an id absent from the in-flight
/// set, and exhaustion of the id or cycle counters.
#[derive(Clone, Copy, Debug, PartialEq, Eq, Structural)]
pub enum SimError {
    SimManagerError,
}

} // verus!
