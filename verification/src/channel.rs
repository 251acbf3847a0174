use vstd::prelude::*;

use crate::event::Event;
use crate::types::EventId;

verus! {

#[verifier::external_type_specification]
#[verifier::external_body]
#[verifier::reject_recursive_types(T)]
pub struct ExSender<T>(crossbeam_channel::Sender<T>);

#[verifier::external_type_specification]
#[verifier::external_body]
#[verifier::reject_recursive_types(T)]
pub struct ExReceiver<T>(crossbeam_channel::Receiver<T>);

/// Relies on crossbeam_channel::unbounded: returns the two endpoints of a
/// fresh channel of unbounded capacity. Nothing is assumed of the channel's
/// contents, which depend on what other threads send.
#[verifier::external_body]
pub(crate) fn new_event_channel() -> (r: (
    crossbeam_channel::Sender<Event>,
    crossbeam_channel::Receiver<Event>,
))
{
    crossbeam_channel::unbounded()
}

/// Relies on crossbeam_channel::Sender::try_send: enqueues the message
/// without blocking; on an unbounded channel it fails only when every
/// receiver has been dropped. Returns whether the message was accepted.
#[verifier::external_body]
pub(crate) fn try_send_event(sender: &crossbeam_channel::Sender<Event>, event: Event) -> (r:
    bool)
{
    sender.try_send(event).is_ok()
}

/// Relies on crossbeam_channel::Sender::try_send, as for events.
#[verifier::external_body]
pub(crate) fn try_send_id(sender: &crossbeam_channel::Sender<EventId>, id: EventId) -> (r: bool)
{
    sender.try_send(id).is_ok()
}

/// Relies on crossbeam_channel::Receiver::try_recv: takes one pending
/// message without blocking, or reports that none is available. Which
/// message (if any) comes back depends on concurrent senders, so nothing
/// is assumed of the result.
#[verifier::external_body]
pub(crate) fn try_recv_event(receiver: &crossbeam_channel::Receiver<Event>) -> (r: Option<
    Event,
>)
{
    match receiver.try_recv() {
        Ok(event) => Some(event),
        Err(_) => None,
    }
}

/// Relies on crossbeam_channel::Receiver::try_recv, as for events.
#[verifier::external_body]
pub(crate) fn try_recv_id(receiver: &crossbeam_channel::Receiver<EventId>) -> (r: Option<
    EventId,
>)
{
    match receiver.try_recv() {
        Ok(id) => Some(id),
        Err(_) => None,
    }
}

/// Relies on crossbeam_channel's Clone for Sender: the clone is another
/// handle to the very same channel (it shares the original's inner
/// channel pointer), so it stands for the same endpoint.
#[verifier::external_body]
pub(crate) fn clone_event_sender(sender: &crossbeam_channel::Sender<Event>) -> (r:
    crossbeam_channel::Sender<Event>)
    ensures
        r == *sender,
{
    sender.clone()
}

/// Relies on crossbeam_channel's Clone for Sender, as for events.
#[verifier::external_body]
pub(crate) fn clone_id_sender(sender: &crossbeam_channel::Sender<EventId>) -> (r:
    crossbeam_channel::Sender<EventId>)
    ensures
        r == *sender,
{
    sender.clone()
}

} // verus!
