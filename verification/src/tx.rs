use vstd::prelude::*;

use crate::channel::{clone_event_sender, clone_id_sender, new_event_channel};
use crate::event::{Event, EventValue, Payload};
use crate::rx::Rx;
use crate::sim_manager::{q_has_id, SimManager};
use crate::task::Task;
use crate::types::{Cycle, EventId, Output};

verus! {

/// The publishing end of a typed channel pair: owns the current value and
/// one destination channel per subscribed [`Rx`].
pub struct Tx {
    pub senders: Vec<Output>,
    pub ack_sender: crossbeam_channel::Sender<EventId>,
    pub value: Payload,
}

impl Tx {
    pub fn new(ack_sender: crossbeam_channel::Sender<EventId>) -> (r: Tx)
        ensures
            r.senders@.len() == 0,
            r.value == Payload::Unit,
            r.ack_sender == ack_sender,
    {
        Tx { senders: Vec::new(), ack_sender, value: Payload::default() }
    }

    /// Stores the value and, for every subscriber, requests a fresh event
    /// id from the coordinator, builds an event scheduled `delay` cycles
    /// from now, and enqueues a task targeting that subscriber.
    pub fn send(&mut self, mgr: &mut SimManager, value: Payload, delay: Cycle)
        requires
            old(mgr).wf(),
            old(mgr).curr_cycle + delay <= u128::MAX,
            old(mgr).next_event_id + old(self).senders@.len() <= u128::MAX,
        ensures
            final(self).value == value,
            final(self).senders == old(self).senders,
            final(self).ack_sender == old(self).ack_sender,
            final(mgr).wf(),
            final(mgr).curr_cycle == old(mgr).curr_cycle,
            final(mgr).clock_tick_q == old(mgr).clock_tick_q,
            final(mgr).rob == old(mgr).rob,
            final(mgr).next_event_id as int == old(mgr).next_event_id + old(self).senders@.len(),
            final(mgr).ack_recv == old(mgr).ack_recv,
            final(mgr).component_do_not_end_set == old(mgr).component_do_not_end_set,
            final(mgr).event_processed == old(mgr).event_processed,
            final(mgr).retired == old(mgr).retired,
            final(mgr).pop_log == old(mgr).pop_log,
            final(mgr).event_q@.len() == old(mgr).event_q@.len() + old(self).senders@.len(),
            forall|i: int|
                0 <= i < old(mgr).event_q@.len() ==> final(mgr).event_q@[i] == old(
                    mgr,
                ).event_q@[i],
            forall|k: int|
                0 <= k < old(self).senders@.len() ==> (#[trigger] final(mgr).event_q@[old(
                    mgr,
                ).event_q@.len() + k]).event == (Event {
                    event_id: (old(mgr).next_event_id + k) as u128,
                    scheduled_time: (old(mgr).curr_cycle + delay) as u128,
                    payload: value,
                }),
            // each task targets its subscriber's own channel
            forall|k: int|
                0 <= k < old(self).senders@.len() ==> (#[trigger] final(mgr).event_q@[old(
                    mgr,
                ).event_q@.len() + k]).event_callback == old(self).senders@[k],
    {
        self.value = value;
        let ghost pre = *old(mgr);
        let curr_cycle = mgr.get_curr_cycle();
        let n = self.senders.len();
        let mut k: usize = 0;
        while k < n
            invariant
                pre == *old(mgr),
                k <= n,
                n == self.senders@.len(),
                self.senders == old(self).senders,
                self.ack_sender == old(self).ack_sender,
                self.value == value,
                curr_cycle == pre.curr_cycle,
                pre.curr_cycle + delay <= u128::MAX,
                pre.next_event_id + n <= u128::MAX,
                mgr.wf(),
                mgr.curr_cycle == pre.curr_cycle,
                mgr.clock_tick_q == pre.clock_tick_q,
                mgr.rob == pre.rob,
                mgr.next_event_id as int == pre.next_event_id + k,
                mgr.ack_recv == pre.ack_recv,
                mgr.component_do_not_end_set == pre.component_do_not_end_set,
                mgr.event_processed == pre.event_processed,
                mgr.retired == pre.retired,
                mgr.pop_log == pre.pop_log,
                mgr.event_q@.len() == pre.event_q@.len() + k,
                forall|i: int| 0 <= i < pre.event_q@.len() ==> mgr.event_q@[i] == pre.event_q@[i],
                forall|j: int|
                    0 <= j < k ==> (#[trigger] mgr.event_q@[pre.event_q@.len() + j]).event == (
                    Event {
                        event_id: (pre.next_event_id + j) as u128,
                        scheduled_time: (pre.curr_cycle + delay) as u128,
                        payload: value,
                    }),
                forall|j: int|
                    0 <= j < k ==> (#[trigger] mgr.event_q@[pre.event_q@.len() + j]).event_callback
                        == old(self).senders@[j],
            decreases n - k,
        {
            let event_id = mgr.request_new_event_id();
            let event = value.build_event(event_id, curr_cycle + delay);
            let sender = clone_event_sender(&self.senders[k]);
            proof {
                assert(!q_has_id(mgr.event_q@, event_id)) by {
                    if q_has_id(mgr.event_q@, event_id) {
                        let j = choose|j: int|
                            0 <= j < mgr.event_q@.len() && (#[trigger] mgr.event_q@[j]).event.event_id
                                == event_id;
                        assert(mgr.event_q@[j].event.event_id < event_id);
                    }
                }
                assert(!mgr.rob@.contains(event_id)) by {
                    if mgr.rob@.contains(event_id) {
                        let j = choose|j: int|
                            0 <= j < mgr.rob@.len() && (#[trigger] mgr.rob@[j]) == event_id;
                        assert(mgr.rob@[j] < event_id);
                    }
                }
            }
            mgr.enq_event(Task::new(event, sender));
            k = k + 1;
        }
    }

    /// Creates a new unbounded channel, registers its sending end as a
    /// subscriber, and returns an [`Rx`] bound to its receiving end and
    /// to the shared acknowledgment channel.
    pub fn add_rx(&mut self) -> (r: Rx)
        ensures
            final(self).senders@.len() == old(self).senders@.len() + 1,
            // existing subscribers keep their places untouched
            forall|i: int|
                0 <= i < old(self).senders@.len() ==> final(self).senders@[i] == old(
                    self,
                ).senders@[i],
            final(self).ack_sender == old(self).ack_sender,
            final(self).value == old(self).value,
            r.value == Payload::Unit,
            r.value_old is None,
            r.event_id is None,
            // the new subscriber shares this publisher's ack channel
            r.ack_sender == old(self).ack_sender,
    {
        let (sender, receiver) = new_event_channel();
        let rx = Rx::new(receiver, clone_id_sender(&self.ack_sender));
        self.senders.push(sender);
        rx
    }

    pub fn get_value(&self) -> (r: Payload)
        ensures
            r == self.value,
    {
        self.value
    }
}

} // verus!
