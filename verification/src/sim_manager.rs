use vstd::prelude::*;

use crate::channel::{clone_event_sender, try_recv_id, try_send_event};
use crate::clock_event::ClockEvent;
use crate::error::SimError;
use crate::event::{Event, Payload};
use crate::task::{task_lt, Task};
use crate::types::{ComponentId, Cycle, EventId, Output};
use vstd::set_lib::lemma_len_subset;
use vstd::set_lib::set_int_range;
use vstd::set_lib::lemma_int_range;

verus! {

/// Does some task in `q` carry the event id `id`?
pub open spec fn q_has_id(q: Seq<Task>, id: EventId) -> bool {
    exists|i: int| 0 <= i < q.len() && (#[trigger] q[i]).event.event_id == id
}

/// Does some task in `q` carry exactly the event `e`?
pub open spec fn q_has_event(q: Seq<Task>, e: Event) -> bool {
    exists|i: int| 0 <= i < q.len() && (#[trigger] q[i]).event == e
}

/// Does `q` hold exactly the task `t` — event and destination together?
pub open spec fn q_has_task(q: Seq<Task>, t: Task) -> bool {
    exists|i: int| 0 <= i < q.len() && (#[trigger] q[i]) == t
}

/// The central coordinator: owns simulated time, the pending-event queue,
/// the in-flight (delivered but unacknowledged) id set, event-id
/// allocation, the registered clock subscribers and the termination vote.
///
/// It is a single-writer value: one driver owns it and every operation
/// takes it directly, so the cycle/queue/ack bookkeeping is sequential
/// even when deliveries and acknowledgments travel between threads over
/// the channels.
pub struct SimManager {
    /// Simulated time, a monotonic cycle counter.
    pub curr_cycle: Cycle,
    /// Pending tasks, ordered for delivery by [`task_lt`].
    pub event_q: Vec<Task>,
    /// One sending endpoint per registered clock subscriber.
    pub clock_tick_q: Vec<Output>,
    /// Ids of delivered but not yet acknowledged tasks (a reorder buffer).
    pub rob: Vec<EventId>,
    /// The next event id to hand out; ids only ever grow.
    pub next_event_id: EventId,
    /// The shared channel on which components send acknowledgments back.
    pub ack_recv: crossbeam_channel::Receiver<EventId>,
    /// Components currently forbidding the simulation from ending.
    pub component_do_not_end_set: Vec<ComponentId>,
    /// How many tasks have been delivered and acknowledged.
    pub event_processed: u128,
    /// Ghost history: the ids of all acknowledged tasks, each retired once.
    pub retired: Ghost<Set<int>>,
    /// Ghost history: every event popped from the queue, in delivery order.
    pub pop_log: Ghost<Seq<Event>>,
}

impl SimManager {
    /// The id discipline the coordinator maintains: every id it tracks was
    /// allocated (is below `next_event_id`), pending ids are pairwise
    /// distinct and neither in flight nor retired, in-flight ids are
    /// pairwise distinct and not retired, the processed counter counts the
    /// retired ids, and the vote set holds each component at most once.
    pub open spec fn wf(self) -> bool {
        &&& forall|i: int|
            0 <= i < self.event_q@.len() ==> (#[trigger] self.event_q@[i]).event.event_id
                < self.next_event_id
        &&& forall|i: int, j: int|
            0 <= i < self.event_q@.len() && 0 <= j < self.event_q@.len() && i != j ==> (
            #[trigger] self.event_q@[i]).event.event_id != (
            #[trigger] self.event_q@[j]).event.event_id
        &&& forall|i: int|
            0 <= i < self.event_q@.len() ==> !self.rob@.contains(
                (#[trigger] self.event_q@[i]).event.event_id,
            )
        &&& forall|i: int|
            0 <= i < self.event_q@.len() ==> !self.retired@.contains(
                (#[trigger] self.event_q@[i]).event.event_id as int,
            )
        &&& forall|i: int| 0 <= i < self.rob@.len() ==> (#[trigger] self.rob@[i]) < self.next_event_id
        &&& forall|i: int, j: int|
            0 <= i < self.rob@.len() && 0 <= j < self.rob@.len() && i != j ==> (
            #[trigger] self.rob@[i]) != (#[trigger] self.rob@[j])
        &&& forall|i: int|
            0 <= i < self.rob@.len() ==> !self.retired@.contains((#[trigger] self.rob@[i]) as int)
        &&& self.retired@.finite()
        &&& forall|x: int| self.retired@.contains(x) ==> 0 <= x < self.next_event_id as int
        &&& self.event_processed == self.retired@.len()
        &&& forall|i: int, j: int|
            0 <= i < self.component_do_not_end_set@.len() && 0 <= j
                < self.component_do_not_end_set@.len() && i != j ==> (
            #[trigger] self.component_do_not_end_set@[i]) != (
            #[trigger] self.component_do_not_end_set@[j])
    }

    /// The cycle may advance: nothing is in flight and no pending task is
    /// scheduled at or before the current cycle.
    pub open spec fn can_advance(self) -> bool {
        &&& self.rob@.len() == 0
        &&& forall|i: int|
            0 <= i < self.event_q@.len() ==> (#[trigger] self.event_q@[i]).event.scheduled_time
                > self.curr_cycle
    }

    pub fn new(ack_recv: crossbeam_channel::Receiver<EventId>) -> (r: SimManager)
        ensures
            r.wf(),
            r.curr_cycle == 0,
            r.event_q@.len() == 0,
            r.clock_tick_q@.len() == 0,
            r.rob@.len() == 0,
            r.next_event_id == 0,
            r.component_do_not_end_set@.len() == 0,
            r.event_processed == 0,
            r.ack_recv == ack_recv,
            r.retired@ == Set::<int>::empty(),
            r.pop_log@ == Seq::<Event>::empty(),
    {
        proof {
            assert(Set::<int>::empty().len() == 0);
        }
        SimManager {
            curr_cycle: 0,
            event_q: Vec::new(),
            clock_tick_q: Vec::new(),
            rob: Vec::new(),
            next_event_id: 0,
            ack_recv,
            component_do_not_end_set: Vec::new(),
            event_processed: 0,
            retired: Ghost(Set::empty()),
            pop_log: Ghost(Seq::empty()),
        }
    }

    pub fn get_curr_cycle(&self) -> (r: Cycle)
        ensures
            r == self.curr_cycle,
    {
        self.curr_cycle
    }

    /// Hands out a fresh event id. Ids are issued in strictly increasing
    /// order, so no two allocations of one coordinator ever coincide.
    pub fn request_new_event_id(&mut self) -> (r: EventId)
        requires
            old(self).next_event_id < u128::MAX,
        ensures
            r == old(self).next_event_id,
            *final(self) == (SimManager {
                next_event_id: (old(self).next_event_id + 1) as u128,
                ..*old(self)
            }),
            old(self).wf() ==> final(self).wf(),
    {
        let ret = self.next_event_id;
        self.next_event_id = self.next_event_id + 1;
        ret
    }

    /// Appends a task to the pending queue. Per the id discipline, the
    /// task's id must have been allocated by this coordinator and must not
    /// collide with any pending, in-flight or retired id.
    pub fn enq_event(&mut self, task: Task)
        requires
            old(self).wf(),
            task.event.event_id < old(self).next_event_id,
            !q_has_id(old(self).event_q@, task.event.event_id),
            !old(self).rob@.contains(task.event.event_id),
            !old(self).retired@.contains(task.event.event_id as int),
        ensures
            final(self).wf(),
            final(self).event_q@ == old(self).event_q@.push(task),
            final(self).curr_cycle == old(self).curr_cycle,
            final(self).clock_tick_q == old(self).clock_tick_q,
            final(self).rob == old(self).rob,
            final(self).next_event_id == old(self).next_event_id,
            final(self).ack_recv == old(self).ack_recv,
            final(self).component_do_not_end_set == old(self).component_do_not_end_set,
            final(self).event_processed == old(self).event_processed,
            final(self).retired == old(self).retired,
            final(self).pop_log == old(self).pop_log,
    {
        self.event_q.push(task);
    }

    /// Registers a channel that must receive exactly one synthetic clock
    /// event per cycle.
    pub fn register_clock_tick(&mut self, sender: Output)
        ensures
            final(self).clock_tick_q@ == old(self).clock_tick_q@.push(sender),
            final(self).curr_cycle == old(self).curr_cycle,
            final(self).event_q == old(self).event_q,
            final(self).rob == old(self).rob,
            final(self).next_event_id == old(self).next_event_id,
            final(self).ack_recv == old(self).ack_recv,
            final(self).component_do_not_end_set == old(self).component_do_not_end_set,
            final(self).event_processed == old(self).event_processed,
            final(self).retired == old(self).retired,
            final(self).pop_log == old(self).pop_log,
            old(self).wf() ==> final(self).wf(),
    {
        self.clock_tick_q.push(sender);
    }

    /// Adds a component to the set forbidding termination.
    pub fn register_do_not_end(&mut self, component_id: ComponentId)
        ensures
            forall|x: ComponentId|
                final(self).component_do_not_end_set@.contains(x) <==> (
                old(self).component_do_not_end_set@.contains(x) || x == component_id),
            final(self).curr_cycle == old(self).curr_cycle,
            final(self).event_q == old(self).event_q,
            final(self).clock_tick_q == old(self).clock_tick_q,
            final(self).rob == old(self).rob,
            final(self).next_event_id == old(self).next_event_id,
            final(self).ack_recv == old(self).ack_recv,
            final(self).event_processed == old(self).event_processed,
            final(self).retired == old(self).retired,
            final(self).pop_log == old(self).pop_log,
            old(self).wf() ==> final(self).wf(),
    {
        if !contains_component(&self.component_do_not_end_set, component_id) {
            self.component_do_not_end_set.push(component_id);
            proof {
                let s = old(self).component_do_not_end_set@;
                assert forall|x: ComponentId|
                    self.component_do_not_end_set@.contains(x) <==> (s.contains(x) || x
                        == component_id) by {
                    if s.contains(x) {
                        let k = choose|k: int| 0 <= k < s.len() && s[k] == x;
                        assert(self.component_do_not_end_set@[k] == x);
                    }
                    if x == component_id {
                        assert(self.component_do_not_end_set@[s.len() as int] == x);
                    }
                    if self.component_do_not_end_set@.contains(x) {
                        let k = choose|k: int|
                            0 <= k < self.component_do_not_end_set@.len()
                                && self.component_do_not_end_set@[k] == x;
                        if k < s.len() {
                            assert(s[k] == x);
                        }
                    }
                }
            }
        }
    }

    /// Removes a component from the set forbidding termination.
    pub fn register_can_end(&mut self, component_id: ComponentId)
        requires
            old(self).wf(),
        ensures
            final(self).wf(),
            forall|x: ComponentId|
                final(self).component_do_not_end_set@.contains(x) <==> (
                old(self).component_do_not_end_set@.contains(x) && x != component_id),
            final(self).curr_cycle == old(self).curr_cycle,
            final(self).event_q == old(self).event_q,
            final(self).clock_tick_q == old(self).clock_tick_q,
            final(self).rob == old(self).rob,
            final(self).next_event_id == old(self).next_event_id,
            final(self).ack_recv == old(self).ack_recv,
            final(self).event_processed == old(self).event_processed,
            final(self).retired == old(self).retired,
            final(self).pop_log == old(self).pop_log,
    {
        match find_component(&self.component_do_not_end_set, component_id) {
            Some(i) => {
                let _ = self.component_do_not_end_set.remove(i);
                proof {
                    lemma_remove_distinct_u64(old(self).component_do_not_end_set@, i as int);
                }
            },
            None => {},
        }
    }

    /// The simulation may end exactly when no component forbids it.
    pub fn sim_can_end(&self) -> (r: bool)
        ensures
            r == (self.component_do_not_end_set@.len() == 0),
    {
        self.component_do_not_end_set.len() == 0
    }

    pub fn get_event_processed(&self) -> (r: Result<u128, SimError>)
        ensures
            r == Ok::<u128, SimError>(self.event_processed),
    {
        Ok(self.event_processed)
    }

    /// Resolves one acknowledgment: the id leaves the in-flight set, is
    /// retired for good, and the processed counter advances by one.
    /// Acknowledging an id that is not in flight is a fatal protocol
    /// violation, reported without touching any state.
    pub fn apply_ack(&mut self, ack_id: EventId) -> (r: Result<(), SimError>)
        requires
            old(self).wf(),
        ensures
            final(self).wf(),
            final(self).curr_cycle == old(self).curr_cycle,
            final(self).event_q == old(self).event_q,
            final(self).clock_tick_q == old(self).clock_tick_q,
            final(self).next_event_id == old(self).next_event_id,
            final(self).ack_recv == old(self).ack_recv,
            final(self).component_do_not_end_set == old(self).component_do_not_end_set,
            final(self).pop_log == old(self).pop_log,
            r is Ok <==> old(self).rob@.contains(ack_id),
            old(self).rob@.contains(ack_id) ==> {
                &&& final(self).rob@.len() == old(self).rob@.len() - 1
                &&& forall|x: EventId|
                    final(self).rob@.contains(x) <==> (old(self).rob@.contains(x) && x != ack_id)
                &&& final(self).event_processed == old(self).event_processed + 1
                &&& final(self).retired@ == old(self).retired@.insert(ack_id as int)
            },
            !old(self).rob@.contains(ack_id) ==> *final(self) == *old(self),
    {
        match find_id(&self.rob, ack_id) {
            Some(i) => {
                proof {
                    // retiring one more allocated id keeps the counter below
                    // the id bound, so the increment cannot overflow
                    let all = set_int_range(0, old(self).next_event_id as int);
                    let grown = old(self).retired@.insert(ack_id as int);
                    lemma_int_range(0, old(self).next_event_id as int);
                    assert(grown.subset_of(all));
                    lemma_len_subset(grown, all);
                    assert(grown.len() == old(self).retired@.len() + 1);
                }
                let _ = self.rob.remove(i);
                self.event_processed = self.event_processed + 1;
                proof {
                    lemma_remove_distinct_u128(old(self).rob@, i as int);
                }
                self.retired = Ghost(self.retired@.insert(ack_id as int));
                Ok(())
            },
            None => Err(SimError::SimManagerError),
        }
    }
}

/// Is some task in `q` scheduled strictly before cycle `c`?
pub open spec fn has_stale(q: Seq<Task>, c: Cycle) -> bool {
    exists|i: int| 0 <= i < q.len() && (#[trigger] q[i]).event.scheduled_time < c
}

impl SimManager {
    /// Delivers every pending task whose time has come: repeatedly takes
    /// the minimum task (per [`task_lt`]), records its id as in flight and
    /// sends its event on the task's destination channel, until the
    /// minimum is scheduled in the future or the queue is empty. A popped
    /// task scheduled strictly before the current cycle is a time fault —
    /// a scheduling bug upstream — reported before anything is touched.
    pub fn send_events(&mut self) -> (r: Result<(), SimError>)
        requires
            old(self).wf(),
        ensures
            final(self).wf(),
            final(self).curr_cycle == old(self).curr_cycle,
            final(self).clock_tick_q == old(self).clock_tick_q,
            final(self).next_event_id == old(self).next_event_id,
            final(self).ack_recv == old(self).ack_recv,
            final(self).component_do_not_end_set == old(self).component_do_not_end_set,
            final(self).event_processed == old(self).event_processed,
            final(self).retired == old(self).retired,
            r is Err <==> has_stale(old(self).event_q@, old(self).curr_cycle),
            r is Err ==> *final(self) == *old(self),
            r is Ok ==> ({
                let d = final(self).pop_log@.subrange(
                    old(self).pop_log@.len() as int,
                    final(self).pop_log@.len() as int,
                );
                &&& final(self).pop_log@.len() >= old(self).pop_log@.len()
                &&& final(self).pop_log@ == old(self).pop_log@ + d
                // everything left in the queue is strictly in the future
                &&& forall|i: int|
                    0 <= i < final(self).event_q@.len() ==> (
                    #[trigger] final(self).event_q@[i]).event.scheduled_time > old(
                        self,
                    ).curr_cycle
                // the queue lost exactly the delivered tasks; each survivor
                // stood in the old queue whole, destination included
                &&& forall|i: int|
                    0 <= i < final(self).event_q@.len() ==> q_has_task(
                        old(self).event_q@,
                        (#[trigger] final(self).event_q@[i]),
                    )
                &&& forall|i: int|
                    0 <= i < final(self).event_q@.len() ==> q_has_event(
                        old(self).event_q@,
                        (#[trigger] final(self).event_q@[i]).event,
                    )
                &&& forall|i: int|
                    0 <= i < old(self).event_q@.len() ==> (q_has_event(
                        final(self).event_q@,
                        (#[trigger] old(self).event_q@[i]).event,
                    ) <==> !d.contains(old(self).event_q@[i].event))
                // what was delivered is exactly what was due
                &&& forall|k: int|
                    0 <= k < d.len() ==> (#[trigger] d[k]).scheduled_time == old(self).curr_cycle
                        && q_has_event(old(self).event_q@, d[k])
                // in-flight ids grew by exactly the delivered ids
                &&& forall|x: EventId|
                    final(self).rob@.contains(x) <==> (old(self).rob@.contains(x) || exists|k: int|
                        0 <= k < d.len() && (#[trigger] d[k]).event_id == x)
                &&& final(self).rob@.len() == old(self).rob@.len() + d.len()
                // deliveries happen in queue order: most urgent first
                &&& forall|a: int, b: int| 0 <= a < b < d.len() ==> task_lt(#[trigger] d[a], #[trigger] d[b])
            }),
    {
        let ghost pre = *old(self);
        let ghost mut d: Seq<Event> = Seq::empty();
        proof {
            assert(pre.pop_log@ + d =~= pre.pop_log@);
        }
        loop
            invariant
                pre == *old(self),
                self.wf(),
                self.curr_cycle == pre.curr_cycle,
                self.clock_tick_q == pre.clock_tick_q,
                self.next_event_id == pre.next_event_id,
                self.ack_recv == pre.ack_recv,
                self.component_do_not_end_set == pre.component_do_not_end_set,
                self.event_processed == pre.event_processed,
                self.retired == pre.retired,
                self.pop_log@ == pre.pop_log@ + d,
                forall|k: int|
                    0 <= k < d.len() ==> (#[trigger] d[k]).scheduled_time == pre.curr_cycle
                        && q_has_event(pre.event_q@, d[k]),
                forall|i: int|
                    0 <= i < self.event_q@.len() ==> q_has_task(
                        pre.event_q@,
                        (#[trigger] self.event_q@[i]),
                    ),
                forall|i: int|
                    0 <= i < self.event_q@.len() ==> q_has_event(
                        pre.event_q@,
                        (#[trigger] self.event_q@[i]).event,
                    ),
                forall|k: int, i: int|
                    0 <= k < d.len() && 0 <= i < self.event_q@.len() ==> task_lt(
                        #[trigger] d[k],
                        (#[trigger] self.event_q@[i]).event,
                    ),
                forall|i: int|
                    0 <= i < pre.event_q@.len() ==> (q_has_event(
                        self.event_q@,
                        (#[trigger] pre.event_q@[i]).event,
                    ) <==> !d.contains(pre.event_q@[i].event)),
                forall|x: EventId|
                    self.rob@.contains(x) <==> (pre.rob@.contains(x) || exists|k: int|
                        0 <= k < d.len() && (#[trigger] d[k]).event_id == x),
                self.rob@.len() == pre.rob@.len() + d.len(),
                forall|a: int, b: int| 0 <= a < b < d.len() ==> task_lt(#[trigger] d[a], #[trigger] d[b]),
                d.len() == 0 ==> self.event_q == pre.event_q && self.rob == pre.rob
                    && self.pop_log == pre.pop_log,
            decreases self.event_q@.len(),
        {
            match find_min_index(&self.event_q) {
                None => {
                    proof {
                        assert(self.pop_log@.subrange(
                            pre.pop_log@.len() as int,
                            self.pop_log@.len() as int,
                        ) =~= d);
                        assert(!has_stale(pre.event_q@, pre.curr_cycle)) by {
                            assert forall|i: int|
                                0 <= i < pre.event_q@.len() implies (
                            #[trigger] pre.event_q@[i]).event.scheduled_time
                                >= pre.curr_cycle by {
                                assert(d.contains(pre.event_q@[i].event));
                            }
                        }
                    }
                    return Ok(());
                },
                Some(i) => {
                    let t = self.event_q[i].event.scheduled_time;
                    if t > self.curr_cycle {
                        proof {
                            assert(self.pop_log@.subrange(
                                pre.pop_log@.len() as int,
                                self.pop_log@.len() as int,
                            ) =~= d);
                            // the chosen task is minimal, so every remaining
                            // task is scheduled in the future as well
                            assert forall|j: int|
                                0 <= j < self.event_q@.len() implies (
                            #[trigger] self.event_q@[j]).event.scheduled_time
                                > self.curr_cycle by {
                                if j != i {
                                    assert(!task_lt(
                                        self.event_q@[j].event,
                                        self.event_q@[i as int].event,
                                    ));
                                }
                            }
                            assert(!has_stale(pre.event_q@, pre.curr_cycle)) by {
                                assert forall|j: int|
                                    0 <= j < pre.event_q@.len() implies (
                                #[trigger] pre.event_q@[j]).event.scheduled_time
                                    >= pre.curr_cycle by {
                                    if !d.contains(pre.event_q@[j].event) {
                                        assert(q_has_event(self.event_q@, pre.event_q@[j].event));
                                    }
                                }
                            }
                        }
                        return Ok(());
                    }
                    if t < self.curr_cycle {
                        proof {
                            // nothing has been delivered yet: anything already
                            // delivered would have to precede this stale task,
                            // yet all deliveries sit exactly at the current cycle
                            assert(d.len() == 0) by {
                                if d.len() > 0 {
                                    assert(task_lt(d[0], self.event_q@[i as int].event));
                                }
                            }
                            assert(self.pop_log@ =~= pre.pop_log@);
                            assert(*self == pre);
                            assert(has_stale(pre.event_q@, pre.curr_cycle));
                        }
                        return Err(SimError::SimManagerError);
                    }
                    let ghost q0 = self.event_q@;
                    let ghost rob0 = self.rob@;
                    let ghost d0 = d;
                    let task = self.event_q.remove(i);
                    self.rob.push(task.event.event_id);
                    proof {
                        lemma_remove_task_events(q0, i as int);
                        lemma_push_contains(rob0, task.event.event_id);
                        // each survivor is one of the old queue's own tasks
                        assert forall|j: int|
                            0 <= j < self.event_q@.len() implies q_has_task(
                            pre.event_q@,
                            (#[trigger] self.event_q@[j]),
                        ) by {
                            if j < i {
                                assert(self.event_q@[j] == q0[j]);
                            } else {
                                assert(self.event_q@[j] == q0[j + 1]);
                            }
                        }
                        // the popped task is strictly before every remaining one
                        assert forall|j: int|
                            0 <= j < self.event_q@.len() implies task_lt(
                            task.event,
                            (#[trigger] self.event_q@[j]).event,
                        ) by {
                            let e = self.event_q@[j].event;
                            assert(q_has_event(self.event_q@, e));
                            let j0 = choose|j0: int|
                                0 <= j0 < q0.len() && (#[trigger] q0[j0]).event == e;
                            assert(!task_lt(q0[j0].event, q0[i as int].event));
                            assert(e.event_id != task.event.event_id);
                        }
                        d = d.push(task.event);
                        lemma_push_contains(d0, task.event);
                        assert(d == d0.push(task.event));
                    }
                    self.pop_log = Ghost(pre.pop_log@ + d);
                    let _ = try_send_event(&task.event_callback, task.event);
                    proof {
                        // re-establish the partition of the starting queue
                        assert forall|j: int|
                            0 <= j < pre.event_q@.len() implies (q_has_event(
                            self.event_q@,
                            (#[trigger] pre.event_q@[j]).event,
                        ) <==> !d.contains(pre.event_q@[j].event)) by {
                            let e = pre.event_q@[j].event;
                            assert(q_has_event(q0, e) <==> !d0.contains(e));
                            assert(q_has_event(self.event_q@, e) <==> (q_has_event(q0, e) && e
                                != task.event));
                            assert(d.contains(e) <==> (d0.contains(e) || e == task.event));
                        }
                        // re-establish the in-flight description
                        assert forall|x: EventId|
                            self.rob@.contains(x) <==> (pre.rob@.contains(x) || exists|k: int|
                                0 <= k < d.len() && (#[trigger] d[k]).event_id == x) by {
                            assert(self.rob@.contains(x) <==> (rob0.contains(x) || x
                                == task.event.event_id));
                            if rob0.contains(x) && !pre.rob@.contains(x) {
                                let k = choose|k: int|
                                    0 <= k < d0.len() && (#[trigger] d0[k]).event_id == x;
                                assert(d[k].event_id == x);
                            }
                            if x == task.event.event_id {
                                assert(d[d.len() - 1].event_id == x);
                            }
                            if exists|k: int| 0 <= k < d.len() && (#[trigger] d[k]).event_id == x {
                                let k = choose|k: int|
                                    0 <= k < d.len() && (#[trigger] d[k]).event_id == x;
                                if k < d.len() - 1 {
                                    assert(d0[k].event_id == x);
                                }
                            }
                        }
                    }
                },
            }
        }
    }
}

impl SimManager {
    /// Advances simulated time by exactly one cycle.
    fn increment_cycle(&mut self)
        requires
            old(self).curr_cycle < u128::MAX,
        ensures
            *final(self) == (SimManager {
                curr_cycle: (old(self).curr_cycle + 1) as u128,
                ..*old(self)
            }),
            old(self).wf() ==> final(self).wf(),
    {
        self.curr_cycle = self.curr_cycle + 1;
    }

    /// Enqueues one synthetic clock event per registered subscriber, all
    /// scheduled at the current cycle, with consecutively allocated ids.
    pub fn schedule_clock_tasks(&mut self)
        requires
            old(self).wf(),
            old(self).next_event_id + old(self).clock_tick_q@.len() <= u128::MAX,
        ensures
            final(self).wf(),
            final(self).curr_cycle == old(self).curr_cycle,
            final(self).clock_tick_q == old(self).clock_tick_q,
            final(self).rob == old(self).rob,
            final(self).next_event_id as int == old(self).next_event_id + old(
                self,
            ).clock_tick_q@.len(),
            final(self).ack_recv == old(self).ack_recv,
            final(self).component_do_not_end_set == old(self).component_do_not_end_set,
            final(self).event_processed == old(self).event_processed,
            final(self).retired == old(self).retired,
            final(self).pop_log == old(self).pop_log,
            final(self).event_q@.len() == old(self).event_q@.len() + old(self).clock_tick_q@.len(),
            forall|i: int|
                0 <= i < old(self).event_q@.len() ==> final(self).event_q@[i] == old(
                    self,
                ).event_q@[i],
            forall|k: int|
                0 <= k < old(self).clock_tick_q@.len() ==> (#[trigger] final(self).event_q@[old(
                    self,
                ).event_q@.len() + k]).event == (Event {
                    event_id: (old(self).next_event_id + k) as u128,
                    scheduled_time: old(self).curr_cycle,
                    payload: Payload::Unit,
                }),
            // each clock task targets its own subscriber's channel
            forall|k: int|
                0 <= k < old(self).clock_tick_q@.len() ==> (#[trigger] final(self).event_q@[old(
                    self,
                ).event_q@.len() + k]).event_callback == old(self).clock_tick_q@[k],
    {
        let ghost pre = *old(self);
        let n = self.clock_tick_q.len();
        let mut k: usize = 0;
        while k < n
            invariant
                pre == *old(self),
                k <= n,
                n == pre.clock_tick_q@.len(),
                self.wf(),
                self.curr_cycle == pre.curr_cycle,
                self.clock_tick_q == pre.clock_tick_q,
                self.rob == pre.rob,
                self.next_event_id as int == pre.next_event_id + k,
                self.ack_recv == pre.ack_recv,
                self.component_do_not_end_set == pre.component_do_not_end_set,
                self.event_processed == pre.event_processed,
                self.retired == pre.retired,
                self.pop_log == pre.pop_log,
                pre.next_event_id + n <= u128::MAX,
                self.event_q@.len() == pre.event_q@.len() + k,
                forall|i: int| 0 <= i < pre.event_q@.len() ==> self.event_q@[i] == pre.event_q@[i],
                forall|j: int|
                    0 <= j < k ==> (#[trigger] self.event_q@[pre.event_q@.len() + j]).event == (
                    Event {
                        event_id: (pre.next_event_id + j) as u128,
                        scheduled_time: pre.curr_cycle,
                        payload: Payload::Unit,
                    }),
                forall|j: int|
                    0 <= j < k ==> (#[trigger] self.event_q@[pre.event_q@.len() + j]).event_callback
                        == pre.clock_tick_q@[j],
            decreases n - k,
        {
            let id = self.request_new_event_id();
            let ce = ClockEvent::new(self.curr_cycle, id);
            let sender = clone_event_sender(&self.clock_tick_q[k]);
            let task = Task::new(ce.to_event(), sender);
            proof {
                assert(!q_has_id(self.event_q@, id)) by {
                    if q_has_id(self.event_q@, id) {
                        let j = choose|j: int|
                            0 <= j < self.event_q@.len() && (#[trigger] self.event_q@[j]).event.event_id
                                == id;
                        assert(self.event_q@[j].event.event_id < id);
                    }
                }
                assert(!self.rob@.contains(id)) by {
                    if self.rob@.contains(id) {
                        let j = choose|j: int|
                            0 <= j < self.rob@.len() && (#[trigger] self.rob@[j]) == id;
                        assert(self.rob@[j] < id);
                    }
                }
            }
            self.enq_event(task);
            k = k + 1;
        }
    }

    /// Non-blocking consumption of every acknowledgment currently waiting
    /// on the shared ack channel; each one resolves one in-flight id and
    /// advances the processed counter. An acknowledgment for an id that is
    /// not in flight is a fatal protocol violation.
    pub fn recv_ack(&mut self) -> (r: Result<(), SimError>)
        requires
            old(self).wf(),
        ensures
            final(self).wf(),
            final(self).curr_cycle == old(self).curr_cycle,
            final(self).event_q == old(self).event_q,
            final(self).clock_tick_q == old(self).clock_tick_q,
            final(self).next_event_id == old(self).next_event_id,
            final(self).ack_recv == old(self).ack_recv,
            final(self).component_do_not_end_set == old(self).component_do_not_end_set,
            final(self).pop_log == old(self).pop_log,
            forall|x: EventId| final(self).rob@.contains(x) ==> old(self).rob@.contains(x),
            final(self).rob@.len() <= old(self).rob@.len(),
            final(self).event_processed as int == old(self).event_processed + old(
                self,
            ).rob@.len() - final(self).rob@.len(),
    {
        let ghost pre = *old(self);
        loop
            invariant
                pre == *old(self),
                self.wf(),
                self.curr_cycle == pre.curr_cycle,
                self.event_q == pre.event_q,
                self.clock_tick_q == pre.clock_tick_q,
                self.next_event_id == pre.next_event_id,
                self.ack_recv == pre.ack_recv,
                self.component_do_not_end_set == pre.component_do_not_end_set,
                self.pop_log == pre.pop_log,
                forall|x: EventId| self.rob@.contains(x) ==> pre.rob@.contains(x),
                self.rob@.len() <= pre.rob@.len(),
                self.event_processed as int == pre.event_processed + pre.rob@.len()
                    - self.rob@.len(),
            decreases self.rob@.len(),
        {
            match try_recv_id(&self.ack_recv) {
                None => {
                    return Ok(());
                },
                Some(id) => {
                    match self.apply_ack(id) {
                        Ok(_) => {},
                        Err(e) => {
                            return Err(e);
                        },
                    }
                },
            }
        }
    }

    /// Synchronous test-only injection: immediately marks the event's id
    /// as in flight and sends the event on the given channel, bypassing
    /// the pending queue. The id discipline still applies: the id must
    /// have been allocated and must not collide with a tracked one.
    pub fn proxy_event(&mut self, event: Event, callback: Output)
        requires
            old(self).wf(),
            event.event_id < old(self).next_event_id,
            !old(self).rob@.contains(event.event_id),
            !old(self).retired@.contains(event.event_id as int),
            !q_has_id(old(self).event_q@, event.event_id),
        ensures
            final(self).wf(),
            final(self).rob@ == old(self).rob@.push(event.event_id),
            final(self).curr_cycle == old(self).curr_cycle,
            final(self).event_q == old(self).event_q,
            final(self).clock_tick_q == old(self).clock_tick_q,
            final(self).next_event_id == old(self).next_event_id,
            final(self).ack_recv == old(self).ack_recv,
            final(self).component_do_not_end_set == old(self).component_do_not_end_set,
            final(self).event_processed == old(self).event_processed,
            final(self).retired == old(self).retired,
            final(self).pop_log == old(self).pop_log,
    {
        self.rob.push(event.event_id);
        proof {
            lemma_push_contains(old(self).rob@, event.event_id);
            assert forall|i: int|
                0 <= i < self.event_q@.len() implies !self.rob@.contains(
                (#[trigger] self.event_q@[i]).event.event_id,
            ) by {
                assert(self.event_q@[i].event.event_id != event.event_id);
            }
        }
        let _ = try_send_event(&callback, event);
    }
}

impl SimManager {
    /// The cycle may be increased iff all acknowledgments have been
    /// received (nothing is in flight) and the earliest pending task is
    /// not in this cycle — both directions.
    pub fn can_increase_cycle(&self) -> (r: bool)
        ensures
            r == self.can_advance(),
    {
        if self.rob.len() != 0 {
            return false;
        }
        let mut i: usize = 0;
        while i < self.event_q.len()
            invariant
                i <= self.event_q@.len(),
                forall|j: int|
                    0 <= j < i ==> (#[trigger] self.event_q@[j]).event.scheduled_time
                        > self.curr_cycle,
            decreases self.event_q@.len() - i,
        {
            if self.event_q[i].event.scheduled_time <= self.curr_cycle {
                return false;
            }
            i = i + 1;
        }
        true
    }

    /// Drains the current cycle to quiescence: repeatedly consumes
    /// acknowledgments and delivers ready tasks until the cycle may
    /// advance, without incrementing it. Each pass may find nothing new
    /// (acknowledgments travel from other threads), so the number of
    /// polling passes is bounded by `spins`; `Ok(true)` means quiescence
    /// was reached, `Ok(false)` that the budget ran out first. Given any
    /// budget at all, an already-quiescent coordinator never exhausts it,
    /// and a stale pending task is always reported as the time fault.
    pub fn run_cycle_end(&mut self, spins: u64) -> (r: Result<bool, SimError>)
        requires
            old(self).wf(),
        ensures
            final(self).wf(),
            final(self).curr_cycle == old(self).curr_cycle,
            final(self).clock_tick_q == old(self).clock_tick_q,
            final(self).next_event_id == old(self).next_event_id,
            final(self).ack_recv == old(self).ack_recv,
            final(self).component_do_not_end_set == old(self).component_do_not_end_set,
            r == Ok::<bool, SimError>(true) ==> final(self).can_advance(),
            spins > 0 && old(self).can_advance() ==> r != Ok::<bool, SimError>(false),
            spins > 0 && has_stale(old(self).event_q@, old(self).curr_cycle) ==> r is Err,
    {
        let ghost pre = *old(self);
        let mut k: u64 = 0;
        while k < spins
            invariant
                pre == *old(self),
                self.wf(),
                self.curr_cycle == pre.curr_cycle,
                self.clock_tick_q == pre.clock_tick_q,
                self.next_event_id == pre.next_event_id,
                self.ack_recv == pre.ack_recv,
                self.component_do_not_end_set == pre.component_do_not_end_set,
                k == 0 ==> *self == pre,
                pre.can_advance() ==> k == 0,
                has_stale(pre.event_q@, pre.curr_cycle) ==> k == 0,
            decreases spins - k,
        {
            match self.recv_ack() {
                Ok(_) => {},
                Err(e) => {
                    return Err(e);
                },
            }
            let ghost after_drain = *self;
            match self.send_events() {
                Ok(_) => {},
                Err(e) => {
                    return Err(e);
                },
            }
            if self.can_increase_cycle() {
                proof {
                    if k == 0 && has_stale(pre.event_q@, pre.curr_cycle) {
                        // the drain left the queue and clock untouched, so the
                        // delivery pass would have reported the stale task
                        assert(after_drain.event_q@ == pre.event_q@);
                        assert(false);
                    }
                }
                return Ok(true);
            }
            proof {
                if k == 0 {
                    if pre.can_advance() {
                        // nothing was in flight, so the drained acknowledgments
                        // left the in-flight set empty and the queue untouched,
                        // and nothing was due: the pass was quiescent after all
                        assert(after_drain.rob@.len() == 0);
                        assert(after_drain.event_q@ == pre.event_q@);
                        let d = self.pop_log@.subrange(
                            after_drain.pop_log@.len() as int,
                            self.pop_log@.len() as int,
                        );
                        assert(d.len() == 0) by {
                            if d.len() > 0 {
                                let j = choose|j: int|
                                    0 <= j < after_drain.event_q@.len() && (
                                    #[trigger] after_drain.event_q@[j]).event == d[0];
                                assert(pre.event_q@[j].event.scheduled_time > pre.curr_cycle);
                            }
                        }
                        assert(self.can_advance());
                        assert(false);
                    }
                    if has_stale(pre.event_q@, pre.curr_cycle) {
                        assert(after_drain.event_q@ == pre.event_q@);
                        assert(false);
                    }
                }
            }
            k = k + 1;
        }
        Ok(false)
    }

    /// One full cycle: drains the current cycle to quiescence, then
    /// advances time by one, emits one clock event per subscriber,
    /// delivers the now-ready tasks, and finally absorbs acknowledgments
    /// from the fresh deliveries while anything is in flight and the
    /// termination vote has not passed. The cycle is reported complete
    /// (`Ok(true)`) only once that trailing drain reached its gate:
    /// nothing left in flight, or the vote already passed. `Ok(false)`
    /// means the polling budget ran out first — on a stalled drain the
    /// cycle may nevertheless have advanced; call again to go on.
    /// Exhaustion of the id or cycle counters is surfaced as the
    /// coordinator error.
    pub fn run_cycle(&mut self, spins: u64) -> (r: Result<bool, SimError>)
        requires
            old(self).wf(),
        ensures
            final(self).wf(),
            final(self).clock_tick_q == old(self).clock_tick_q,
            final(self).ack_recv == old(self).ack_recv,
            final(self).component_do_not_end_set == old(self).component_do_not_end_set,
            r == Ok::<bool, SimError>(true) ==> final(self).curr_cycle as int == old(
                self,
            ).curr_cycle + 1 && final(self).next_event_id as int == old(self).next_event_id + old(
                self,
            ).clock_tick_q@.len(),
            // a completed cycle has delivered everything ready at the new
            // cycle: only strictly later tasks remain pending
            r == Ok::<bool, SimError>(true) ==> forall|i: int|
                0 <= i < final(self).event_q@.len() ==> (
                #[trigger] final(self).event_q@[i]).event.scheduled_time > final(self).curr_cycle,
            // the delivery record: one clock event per subscriber, with a
            // fresh id, at the new cycle, was popped and delivered
            r == Ok::<bool, SimError>(true) ==> forall|j: int|
                0 <= j < old(self).clock_tick_q@.len() ==> #[trigger] final(self).pop_log@.contains(
                    (Event {
                        event_id: (old(self).next_event_id + j) as u128,
                        scheduled_time: (old(self).curr_cycle + 1) as u128,
                        payload: Payload::Unit,
                    }),
                ),
            // the cycle formally ends only once the trailing drain reached
            // its gate: nothing in flight any more, or the vote passed
            r == Ok::<bool, SimError>(true) ==> final(self).rob@.len() == 0 || final(self).component_do_not_end_set@.len() == 0,
            r == Ok::<bool, SimError>(false) ==> (final(self).curr_cycle == old(self).curr_cycle
                && final(self).next_event_id == old(self).next_event_id) || (final(self).curr_cycle as int == old(self).curr_cycle + 1
                && final(self).next_event_id as int == old(self).next_event_id + old(
                self,
            ).clock_tick_q@.len()),
            r is Err ==> final(self).curr_cycle == old(self).curr_cycle
                || final(self).curr_cycle as int == old(self).curr_cycle + 1,
            spins > 0 && has_stale(old(self).event_q@, old(self).curr_cycle) ==> r is Err,
            spins > 0 && old(self).can_advance() && old(self).component_do_not_end_set@.len() == 0
                && old(self).curr_cycle < u128::MAX && old(self).next_event_id + old(
                self,
            ).clock_tick_q@.len() <= u128::MAX ==> r != Ok::<bool, SimError>(false),
    {
        let ghost pre = *old(self);
        let mut k: u64 = 0;
        while k < spins
            invariant
                pre == *old(self),
                self.wf(),
                self.curr_cycle == pre.curr_cycle,
                self.clock_tick_q == pre.clock_tick_q,
                self.next_event_id == pre.next_event_id,
                self.ack_recv == pre.ack_recv,
                self.component_do_not_end_set == pre.component_do_not_end_set,
                k == 0 ==> *self == pre,
                pre.can_advance() ==> k == 0,
                has_stale(pre.event_q@, pre.curr_cycle) ==> k == 0,
            decreases spins - k,
        {
            match self.recv_ack() {
                Ok(_) => {},
                Err(e) => {
                    return Err(e);
                },
            }
            let ghost after_drain = *self;
            match self.send_events() {
                Ok(_) => {},
                Err(e) => {
                    return Err(e);
                },
            }
            if self.can_increase_cycle() {
                proof {
                    // the delivery pass just reported no stale task, and the
                    // drain before it left the queue and clock untouched
                    assert(!has_stale(pre.event_q@, pre.curr_cycle)) by {
                        if k == 0 {
                            assert(after_drain.event_q@ == pre.event_q@);
                        }
                    }
                }
                // time to move on to the next cycle
                if self.curr_cycle == u128::MAX {
                    return Err(SimError::SimManagerError);
                }
                if self.next_event_id > u128::MAX - (self.clock_tick_q.len() as u128) {
                    return Err(SimError::SimManagerError);
                }
                self.increment_cycle();
                let ghost before_clock = *self;
                self.schedule_clock_tasks();
                let ghost after_clock = *self;
                match self.send_events() {
                    Ok(_) => {},
                    Err(e) => {
                        return Err(e);
                    },
                }
                let ghost adv = *self;
                proof {
                    // every freshly minted clock event was due at the new
                    // cycle, so the delivery pass popped and recorded it
                    let d = adv.pop_log@.subrange(
                        after_clock.pop_log@.len() as int,
                        adv.pop_log@.len() as int,
                    );
                    assert forall|jj: int|
                        0 <= jj < pre.clock_tick_q@.len() implies #[trigger] adv.pop_log@.contains(
                        (Event {
                            event_id: (pre.next_event_id + jj) as u128,
                            scheduled_time: (pre.curr_cycle + 1) as u128,
                            payload: Payload::Unit,
                        }),
                    ) by {
                        let e = Event {
                            event_id: (pre.next_event_id + jj) as u128,
                            scheduled_time: (pre.curr_cycle + 1) as u128,
                            payload: Payload::Unit,
                        };
                        let at = before_clock.event_q@.len() + jj;
                        assert(after_clock.event_q@[at].event == e);
                        assert(d.contains(e)) by {
                            if !d.contains(e) {
                                assert(q_has_event(adv.event_q@, e));
                                let i = choose|i: int|
                                    0 <= i < adv.event_q@.len() && (
                                    #[trigger] adv.event_q@[i]).event == e;
                                assert(adv.event_q@[i].event.scheduled_time
                                    > after_clock.curr_cycle);
                            }
                        }
                        let m = choose|m: int| 0 <= m < d.len() && d[m] == e;
                        assert(adv.pop_log@[after_clock.pop_log@.len() + m] == e);
                    }
                }
                let mut j: u64 = 0;
                while j < spins
                    invariant
                        pre == *old(self),
                        adv.curr_cycle as int == pre.curr_cycle + 1,
                        adv.next_event_id as int == pre.next_event_id + pre.clock_tick_q@.len(),
                        adv.clock_tick_q == pre.clock_tick_q,
                        adv.ack_recv == pre.ack_recv,
                        adv.component_do_not_end_set == pre.component_do_not_end_set,
                        !has_stale(pre.event_q@, pre.curr_cycle),
                        forall|jj: int|
                            0 <= jj < pre.clock_tick_q@.len() ==> #[trigger] adv.pop_log@.contains(
                                (Event {
                                    event_id: (pre.next_event_id + jj) as u128,
                                    scheduled_time: (pre.curr_cycle + 1) as u128,
                                    payload: Payload::Unit,
                                }),
                            ),
                        forall|i: int|
                            0 <= i < self.event_q@.len() ==> (
                            #[trigger] self.event_q@[i]).event.scheduled_time > self.curr_cycle,
                        self.wf(),
                        self.curr_cycle == adv.curr_cycle,
                        self.clock_tick_q == adv.clock_tick_q,
                        self.next_event_id == adv.next_event_id,
                        self.ack_recv == adv.ack_recv,
                        self.component_do_not_end_set == adv.component_do_not_end_set,
                        self.pop_log == adv.pop_log,
                    decreases spins - j,
                {
                    if self.rob.len() == 0 {
                        break ;
                    }
                    if self.sim_can_end() {
                        break ;
                    }
                    match self.recv_ack() {
                        Ok(_) => {},
                        Err(e) => {
                            return Err(e);
                        },
                    }
                    j = j + 1;
                }
                if self.rob.len() == 0 {
                    return Ok(true);
                }
                if self.sim_can_end() {
                    return Ok(true);
                }
                return Ok(false);
            }
            proof {
                if k == 0 {
                    if pre.can_advance() {
                        // nothing was in flight and nothing was due, so the
                        // pass was quiescent and the branch above was taken
                        assert(after_drain.rob@.len() == 0);
                        assert(after_drain.event_q@ == pre.event_q@);
                        let d = self.pop_log@.subrange(
                            after_drain.pop_log@.len() as int,
                            self.pop_log@.len() as int,
                        );
                        assert(d.len() == 0) by {
                            if d.len() > 0 {
                                let j = choose|j: int|
                                    0 <= j < after_drain.event_q@.len() && (
                                    #[trigger] after_drain.event_q@[j]).event == d[0];
                                assert(pre.event_q@[j].event.scheduled_time > pre.curr_cycle);
                            }
                        }
                        assert(self.can_advance());
                        assert(false);
                    }
                    if has_stale(pre.event_q@, pre.curr_cycle) {
                        assert(after_drain.event_q@ == pre.event_q@);
                        assert(false);
                    }
                }
            }
            k = k + 1;
        }
        Ok(false)
    }

    /// Repeats [`SimManager::run_cycle`] until the termination vote
    /// passes, for at most `cycles` attempts; the vote is consulted only
    /// at full-cycle boundaries. `Ok(true)` means the simulation may end.
    pub fn run(&mut self, cycles: u64, spins: u64) -> (r: Result<bool, SimError>)
        requires
            old(self).wf(),
        ensures
            final(self).wf(),
            final(self).clock_tick_q == old(self).clock_tick_q,
            final(self).ack_recv == old(self).ack_recv,
            final(self).component_do_not_end_set == old(self).component_do_not_end_set,
            r == Ok::<bool, SimError>(true) ==> final(self).component_do_not_end_set@.len() == 0,
            cycles > 0 && spins > 0 && old(self).can_advance() && old(
                self,
            ).component_do_not_end_set@.len() == 0 && old(self).curr_cycle < u128::MAX && old(
                self,
            ).next_event_id + old(self).clock_tick_q@.len() <= u128::MAX ==> r != Ok::<
                bool,
                SimError,
            >(false),
    {
        let ghost pre = *old(self);
        let mut k: u64 = 0;
        while k < cycles
            invariant
                pre == *old(self),
                self.wf(),
                self.clock_tick_q == pre.clock_tick_q,
                self.ack_recv == pre.ack_recv,
                self.component_do_not_end_set == pre.component_do_not_end_set,
                k == 0 ==> *self == pre,
                spins > 0 && pre.can_advance() && pre.component_do_not_end_set@.len() == 0
                    && pre.curr_cycle < u128::MAX && pre.next_event_id
                    + pre.clock_tick_q@.len() <= u128::MAX ==> k == 0,
            decreases cycles - k,
        {
            let done = match self.run_cycle(spins) {
                Ok(b) => b,
                Err(e) => {
                    return Err(e);
                },
            };
            if done && self.sim_can_end() {
                return Ok(true);
            }
            k = k + 1;
        }
        Ok(false)
    }
}

/// Event ids issued by one coordinator are pairwise unique across the
/// whole run: the id about to be issued differs from every id the
/// coordinator tracks — every pending, in-flight and retired id lies
/// strictly below the counter.
pub proof fn lemma_fresh_id_unique(s: SimManager)
    requires
        s.wf(),
    ensures
        !q_has_id(s.event_q@, s.next_event_id),
        !s.rob@.contains(s.next_event_id),
        !s.retired@.contains(s.next_event_id as int),
{
    if q_has_id(s.event_q@, s.next_event_id) {
        let i = choose|i: int|
            0 <= i < s.event_q@.len() && (#[trigger] s.event_q@[i]).event.event_id
                == s.next_event_id;
        assert(s.event_q@[i].event.event_id < s.next_event_id);
    }
    if s.rob@.contains(s.next_event_id) {
        let i = choose|i: int| 0 <= i < s.rob@.len() && (#[trigger] s.rob@[i]) == s.next_event_id;
        assert(s.rob@[i] < s.next_event_id);
    }
}

/// Event ids are issued in strictly increasing order: an allocation at
/// state `s0` returns `s0.next_event_id` and leaves the counter strictly
/// above it, and no operation of the coordinator ever decreases the
/// counter — so whatever happens between two allocations, the later one
/// returns the strictly larger, hence distinct, id.
pub proof fn lemma_event_ids_strictly_increasing(s0: SimManager, s1: SimManager)
    requires
        s1.next_event_id >= s0.next_event_id + 1,
    ensures
        s1.next_event_id > s0.next_event_id,
        s1.next_event_id != s0.next_event_id,
{
}

/// Registering keep-alive interest and immediately releasing it, for a
/// component that was the only possible holder, leaves the termination
/// vote passing: `s1` is `s0` after `register_do_not_end(id)` and `s2` is
/// `s1` after `register_can_end(id)`, as those operations describe their
/// effect on the vote set.
pub proof fn lemma_keep_alive_round_trip(
    s0: SimManager,
    s1: SimManager,
    s2: SimManager,
    id: ComponentId,
)
    requires
        forall|x: ComponentId| s0.component_do_not_end_set@.contains(x) ==> x == id,
        forall|x: ComponentId|
            s1.component_do_not_end_set@.contains(x) <==> (s0.component_do_not_end_set@.contains(x)
                || x == id),
        forall|x: ComponentId|
            s2.component_do_not_end_set@.contains(x) <==> (s1.component_do_not_end_set@.contains(x)
                && x != id),
    ensures
        s2.component_do_not_end_set@.len() == 0,
{
    if s2.component_do_not_end_set@.len() > 0 {
        assert(s2.component_do_not_end_set@.contains(s2.component_do_not_end_set@[0]));
    }
}

/// Picks the index of the queue's minimum task under [`task_lt`]: no other
/// task pops strictly before the chosen one.
fn find_min_index(q: &Vec<Task>) -> (r: Option<usize>)
    ensures
        match r {
            Some(i) => i < q@.len() && forall|j: int|
                0 <= j < q@.len() && j != i ==> !task_lt(
                    (#[trigger] q@[j]).event,
                    q@[i as int].event,
                ),
            None => q@.len() == 0,
        },
{
    if q.len() == 0 {
        return None;
    }
    let mut best: usize = 0;
    let mut i: usize = 1;
    while i < q.len()
        invariant
            best < i,
            i <= q@.len(),
            forall|j: int|
                0 <= j < i && j != best ==> !task_lt(
                    (#[trigger] q@[j]).event,
                    q@[best as int].event,
                ),
        decreases q@.len() - i,
    {
        if q[i].pops_before(&q[best]) {
            proof {
                assert forall|j: int|
                    0 <= j < i + 1 && j != i implies !task_lt(
                    (#[trigger] q@[j]).event,
                    q@[i as int].event,
                ) by {
                    if j != best {
                        assert(!task_lt(q@[j].event, q@[best as int].event));
                    }
                }
            }
            best = i;
        }
        i = i + 1;
    }
    Some(best)
}

/// Appending to a sequence adds exactly one value to its contents.
proof fn lemma_push_contains<A>(s: Seq<A>, v: A)
    ensures
        forall|x: A| #[trigger] s.push(v).contains(x) <==> (s.contains(x) || x == v),
{
    assert forall|x: A| #[trigger] s.push(v).contains(x) implies (s.contains(x) || x == v) by {
        let k = choose|k: int| 0 <= k < s.push(v).len() && s.push(v)[k] == x;
        if k < s.len() {
            assert(s[k] == x);
        }
    }
    assert forall|x: A| (s.contains(x) || x == v) implies #[trigger] s.push(v).contains(x) by {
        if s.contains(x) {
            let k = choose|k: int| 0 <= k < s.len() && s[k] == x;
            assert(s.push(v)[k] == x);
        } else {
            assert(s.push(v)[s.len() as int] == x);
        }
    }
}

/// Removing one task of a queue with pairwise distinct event ids removes
/// exactly that task's event and id from the queue's contents.
proof fn lemma_remove_task_events(s: Seq<Task>, i: int)
    requires
        0 <= i < s.len(),
        forall|a: int, b: int|
            0 <= a < s.len() && 0 <= b < s.len() && a != b ==> (#[trigger] s[a]).event.event_id
                != (#[trigger] s[b]).event.event_id,
    ensures
        forall|e: Event|
            q_has_event(s.remove(i), e) <==> (q_has_event(s, e) && e != s[i].event),
        forall|x: EventId|
            q_has_id(s.remove(i), x) <==> (q_has_id(s, x) && x != s[i].event.event_id),
{
    assert forall|e: Event|
        q_has_event(s.remove(i), e) <==> (q_has_event(s, e) && e != s[i].event) by {
        if q_has_event(s.remove(i), e) {
            let k = choose|k: int| 0 <= k < s.remove(i).len() && (#[trigger] s.remove(i)[k]).event == e;
            if k < i {
                assert(s[k].event == e);
            } else {
                assert(s[k + 1].event == e);
            }
        }
        if q_has_event(s, e) && e != s[i].event {
            let k = choose|k: int| 0 <= k < s.len() && (#[trigger] s[k]).event == e;
            if k < i {
                assert(s.remove(i)[k].event == e);
            } else {
                assert(s.remove(i)[k - 1].event == e);
            }
        }
    }
    assert forall|x: EventId|
        q_has_id(s.remove(i), x) <==> (q_has_id(s, x) && x != s[i].event.event_id) by {
        if q_has_id(s.remove(i), x) {
            let k = choose|k: int|
                0 <= k < s.remove(i).len() && (#[trigger] s.remove(i)[k]).event.event_id == x;
            if k < i {
                assert(s[k].event.event_id == x);
            } else {
                assert(s[k + 1].event.event_id == x);
            }
        }
        if q_has_id(s, x) && x != s[i].event.event_id {
            let k = choose|k: int| 0 <= k < s.len() && (#[trigger] s[k]).event.event_id == x;
            if k < i {
                assert(s.remove(i)[k].event.event_id == x);
            } else {
                assert(s.remove(i)[k - 1].event.event_id == x);
            }
        }
    }
}

/// Linear scan for a component id; `None` means it is absent.
fn find_component(v: &Vec<ComponentId>, x: ComponentId) -> (r: Option<usize>)
    ensures
        match r {
            Some(i) => i < v@.len() && v@[i as int] == x,
            None => !v@.contains(x),
        },
{
    let mut i: usize = 0;
    while i < v.len()
        invariant
            i <= v@.len(),
            forall|j: int| 0 <= j < i ==> v@[j] != x,
        decreases v@.len() - i,
    {
        if v[i] == x {
            return Some(i);
        }
        i = i + 1;
    }
    None
}

fn contains_component(v: &Vec<ComponentId>, x: ComponentId) -> (r: bool)
    ensures
        r == v@.contains(x),
{
    match find_component(v, x) {
        Some(_) => true,
        None => false,
    }
}

/// Linear scan for an event id; `None` means it is absent.
fn find_id(v: &Vec<EventId>, x: EventId) -> (r: Option<usize>)
    ensures
        match r {
            Some(i) => i < v@.len() && v@[i as int] == x,
            None => !v@.contains(x),
        },
{
    let mut i: usize = 0;
    while i < v.len()
        invariant
            i <= v@.len(),
            forall|j: int| 0 <= j < i ==> v@[j] != x,
        decreases v@.len() - i,
    {
        if v[i] == x {
            return Some(i);
        }
        i = i + 1;
    }
    None
}

/// Removing one element of a duplicate-free sequence removes exactly that
/// value from the sequence's contents.
proof fn lemma_remove_distinct_u128(s: Seq<u128>, i: int)
    requires
        0 <= i < s.len(),
        forall|a: int, b: int|
            0 <= a < s.len() && 0 <= b < s.len() && a != b ==> (#[trigger] s[a]) != (#[trigger] s[b]),
    ensures
        forall|x: u128| s.remove(i).contains(x) <==> (s.contains(x) && x != s[i]),
{
    assert forall|x: u128| s.remove(i).contains(x) implies (s.contains(x) && x != s[i]) by {
        let k = choose|k: int| 0 <= k < s.remove(i).len() && s.remove(i)[k] == x;
        if k < i {
            assert(s[k] == x);
        } else {
            assert(s[k + 1] == x);
        }
    }
    assert forall|x: u128| s.contains(x) && x != s[i] implies s.remove(i).contains(x) by {
        let k = choose|k: int| 0 <= k < s.len() && s[k] == x;
        if k < i {
            assert(s.remove(i)[k] == x);
        } else {
            assert(s.remove(i)[k - 1] == x);
        }
    }
}

/// As above, for component ids.
proof fn lemma_remove_distinct_u64(s: Seq<u64>, i: int)
    requires
        0 <= i < s.len(),
        forall|a: int, b: int|
            0 <= a < s.len() && 0 <= b < s.len() && a != b ==> (#[trigger] s[a]) != (#[trigger] s[b]),
    ensures
        forall|x: u64| s.remove(i).contains(x) <==> (s.contains(x) && x != s[i]),
{
    assert forall|x: u64| s.remove(i).contains(x) implies (s.contains(x) && x != s[i]) by {
        let k = choose|k: int| 0 <= k < s.remove(i).len() && s.remove(i)[k] == x;
        if k < i {
            assert(s[k] == x);
        } else {
            assert(s[k + 1] == x);
        }
    }
    assert forall|x: u64| s.contains(x) && x != s[i] implies s.remove(i).contains(x) by {
        let k = choose|k: int| 0 <= k < s.len() && s[k] == x;
        if k < i {
            assert(s.remove(i)[k] == x);
        } else {
            assert(s.remove(i)[k - 1] == x);
        }
    }
}

} // verus!
