use vstd::prelude::*;

use crate::channel::{try_recv_event, try_send_id};
use crate::event::{Event, Payload};
use crate::types::{EventId, Input};

verus! {

/// Classification of one non-blocking receive attempt.
#[derive(Clone, Copy, Debug, PartialEq, Eq, Structural)]
pub enum RxType {
    NewValue,
    OldValue,
    NoValue,
}

/// How a reception is classified: a value equal to the previously
/// received one is an idempotent repeat (`OldValue`); anything else —
/// including the very first reception — is a change (`NewValue`).
pub open spec fn recv_classify(prev: Option<Payload>, p: Payload) -> RxType {
    if prev == Some(p) {
        RxType::OldValue
    } else {
        RxType::NewValue
    }
}

/// The subscribing end of a typed channel pair: holds the last received
/// value, the value received before it, and the id of the most recently
/// received, not yet acknowledged event.
pub struct Rx {
    pub value: Payload,
    pub value_old: Option<Payload>,
    pub event_id: Option<EventId>,
    pub receiver: Input,
    pub ack_sender: crossbeam_channel::Sender<EventId>,
}

impl Rx {
    pub fn new(receiver: Input, ack_sender: crossbeam_channel::Sender<EventId>) -> (r: Rx)
        ensures
            r.value == Payload::Unit,
            r.value_old is None,
            r.event_id is None,
            r.receiver == receiver,
            r.ack_sender == ack_sender,
    {
        Rx {
            value: Payload::default(),
            value_old: None,
            event_id: None,
            receiver,
            ack_sender,
        }
    }

    /// Non-blocking receive. If an event is available its payload becomes
    /// the current value, its id is remembered for [`Rx::ack`], and the
    /// reception is classified against the previously received value;
    /// otherwise nothing changes and the attempt classifies as `NoValue`.
    pub fn try_recv(&mut self) -> (r: RxType)
        ensures
            final(self).receiver == old(self).receiver,
            final(self).ack_sender == old(self).ack_sender,
            r == RxType::NoValue ==> *final(self) == *old(self),
            r != RxType::NoValue ==> exists|e: Event|
                {
                    &&& r == recv_classify(old(self).value_old, e.payload)
                    &&& final(self).value == e.payload
                    &&& final(self).value_old == Some(e.payload)
                    &&& final(self).event_id == Some(e.event_id)
                },
    {
        match try_recv_event(&self.receiver) {
            Some(event) => {
                self.event_id = Some(event.event_id);
                self.value = event.payload;
                let repeated = match self.value_old {
                    Some(prev) => prev == self.value,
                    None => false,
                };
                let r = if repeated {
                    RxType::OldValue
                } else {
                    self.value_old = Some(self.value);
                    RxType::NewValue
                };
                proof {
                    let e = event;
                    assert({
                        &&& r == recv_classify(old(self).value_old, e.payload)
                        &&& self.value == e.payload
                        &&& self.value_old == Some(e.payload)
                        &&& self.event_id == Some(e.event_id)
                    });
                }
                r
            },
            None => RxType::NoValue,
        }
    }

    pub fn get_value(&self) -> (r: Payload)
        ensures
            r == self.value,
    {
        self.value
    }

    /// Sends the remembered event id back on the acknowledgment channel
    /// and clears it; does nothing when no reception is pending.
    pub fn ack(&mut self)
        ensures
            final(self).event_id is None,
            final(self).value == old(self).value,
            final(self).value_old == old(self).value_old,
            final(self).receiver == old(self).receiver,
            final(self).ack_sender == old(self).ack_sender,
    {
        match self.event_id {
            Some(id) => {
                let _ = try_send_id(&self.ack_sender, id);
                self.event_id = None;
            },
            None => {},
        }
    }

    /// Clears the transient value and id state, leaving the wiring
    /// (the channel endpoints) untouched. Used between runs, not mid-run.
    pub fn reset(&mut self)
        ensures
            final(self).value == Payload::Unit,
            final(self).value_old is None,
            final(self).event_id is None,
            final(self).receiver == old(self).receiver,
            final(self).ack_sender == old(self).ack_sender,
    {
        self.value = Payload::default();
        self.value_old = None;
        self.event_id = None;
    }
}

/// Extracts the inner data from an event.
pub fn get_inner(event: &Event) -> (r: Payload)
    ensures
        r == event.payload,
{
    event.payload
}

/// Two consecutive equal values never both classify as `NewValue`: after
/// any reception of a value `p` the previously-received value is `Some(p)`,
/// and a following reception of an equal value classifies as `OldValue`.
pub proof fn lemma_no_repeated_new_value(prev: Option<Payload>, p: Payload)
    ensures
        recv_classify(Some(p), p) == RxType::OldValue,
        recv_classify(prev, p) == RxType::NewValue ==> prev != Some(p),
{
}

} // verus!
