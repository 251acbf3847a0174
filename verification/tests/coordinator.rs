use crossbeam_channel::unbounded;
use rsim_core::component::Component;
use rsim_core::error::SimError;
use rsim_core::event::{Event, Payload};
use rsim_core::sim_dispatcher::SimDispatcher;
use rsim_core::sim_manager::SimManager;
use rsim_core::task::Task;
use rsim_core::types::ComponentId;

fn packet(packet_id: u64) -> Payload {
    Payload::Packet { packet_id, is_last: false }
}

#[test]
fn event_ids_are_strictly_increasing() {
    let ack = unbounded();
    let mut mgr = SimManager::new(ack.1);
    let a = mgr.request_new_event_id();
    let b = mgr.request_new_event_id();
    let c = mgr.request_new_event_id();
    assert_eq!((a, b, c), (0, 1, 2));
    assert!(a < b && b < c);
}

#[test]
fn can_increase_cycle_both_directions() {
    let ack = unbounded();
    let mut mgr = SimManager::new(ack.1);
    // nothing pending, nothing in flight
    assert!(mgr.can_increase_cycle());

    // a pending task strictly in the future does not block advancement
    let id_future = mgr.request_new_event_id();
    let id_now = mgr.request_new_event_id();
    let (s, _r) = unbounded::<Event>();
    mgr.enq_event(Task::new(Event::new(id_future, 1, packet(0)), s.clone()));
    assert!(mgr.can_increase_cycle());

    // a pending task at the current cycle blocks it
    mgr.enq_event(Task::new(Event::new(id_now, 0, packet(1)), s));
    assert!(!mgr.can_increase_cycle());

    // an in-flight id blocks it even with an empty queue
    let ack2 = unbounded();
    let mut mgr2 = SimManager::new(ack2.1);
    let id = mgr2.request_new_event_id();
    let (s2, _r2) = unbounded::<Event>();
    mgr2.proxy_event(Event::new(id, 0, packet(2)), s2);
    assert!(!mgr2.can_increase_cycle());
}

#[test]
fn equal_time_larger_id_pops_first() {
    let ack = unbounded();
    let mut mgr = SimManager::new(ack.1);
    for _ in 0..10 {
        mgr.request_new_event_id();
    }
    let (s, r) = unbounded::<Event>();
    mgr.enq_event(Task::new(Event::new(3, 5, packet(3)), s.clone()));
    mgr.enq_event(Task::new(Event::new(9, 5, packet(9)), s));
    for _ in 0..5 {
        assert!(mgr.run_cycle(4).unwrap());
    }
    assert_eq!(mgr.get_curr_cycle(), 5);
    // both were due at cycle 5: the larger id wins priority
    assert_eq!(r.try_recv().unwrap().get_event_id(), 9);
    assert_eq!(r.try_recv().unwrap().get_event_id(), 3);
}

#[test]
fn earlier_time_pops_first_regardless_of_ids() {
    let ack = unbounded();
    let mut mgr = SimManager::new(ack.1);
    for _ in 0..10 {
        mgr.request_new_event_id();
    }
    let (s, r) = unbounded::<Event>();
    mgr.enq_event(Task::new(Event::new(9, 7, packet(9)), s.clone()));
    mgr.enq_event(Task::new(Event::new(3, 5, packet(3)), s));
    for _ in 0..5 {
        assert!(mgr.run_cycle(4).unwrap());
    }
    assert_eq!(mgr.get_curr_cycle(), 5);
    assert_eq!(r.try_recv().unwrap().get_event_id(), 3);
    assert!(r.try_recv().is_err());
    // resolve the in-flight delivery, then advance to cycle 7
    mgr.apply_ack(3).unwrap();
    assert!(mgr.run_cycle(4).unwrap());
    assert!(mgr.run_cycle(4).unwrap());
    assert_eq!(mgr.get_curr_cycle(), 7);
    assert_eq!(r.try_recv().unwrap().get_event_id(), 9);
}

#[test]
fn stale_task_is_a_time_fault() {
    let ack = unbounded();
    let mut mgr = SimManager::new(ack.1);
    assert!(mgr.run_cycle(4).unwrap());
    assert_eq!(mgr.get_curr_cycle(), 1);
    let id = mgr.request_new_event_id();
    let (s, _r) = unbounded::<Event>();
    mgr.enq_event(Task::new(Event::new(id, 0, packet(0)), s));
    // delivering a task scheduled strictly before the current cycle is fatal
    assert_eq!(mgr.run_cycle_end(4), Err(SimError::SimManagerError));
}

#[test]
fn unknown_ack_is_fatal() {
    let ack = unbounded();
    let mut mgr = SimManager::new(ack.1);
    assert_eq!(mgr.apply_ack(7), Err(SimError::SimManagerError));

    // the same violation arriving over the shared ack channel
    ack.0.try_send(123).unwrap();
    assert_eq!(mgr.recv_ack(), Err(SimError::SimManagerError));
}

#[test]
fn ack_resolves_in_flight_and_counts() {
    let ack = unbounded();
    let mut mgr = SimManager::new(ack.1);
    let id = mgr.request_new_event_id();
    let (s, _r) = unbounded::<Event>();
    mgr.proxy_event(Event::new(id, 0, packet(1)), s);
    assert!(mgr.rob.contains(&id));
    assert_eq!(mgr.get_event_processed(), Ok(0));
    mgr.apply_ack(id).unwrap();
    assert!(!mgr.rob.contains(&id));
    assert_eq!(mgr.get_event_processed(), Ok(1));
    // acknowledging it again is the fatal protocol violation
    assert_eq!(mgr.apply_ack(id), Err(SimError::SimManagerError));
}

#[test]
fn proxy_event_is_in_flight_and_delivered_before_returning() {
    let ack = unbounded();
    let mut mgr = SimManager::new(ack.1);
    let id = mgr.request_new_event_id();
    let (s, r) = unbounded::<Event>();
    mgr.proxy_event(Event::new(id, 0, packet(4)), s);
    // visible in the in-flight set and already on the destination channel
    assert!(mgr.rob.contains(&id));
    let delivered = r.try_recv().unwrap();
    assert_eq!(delivered.get_event_id(), id);
    assert_eq!(delivered.get_payload(), packet(4));
}

#[test]
fn keep_alive_round_trip_leaves_vote_passing() {
    let ack = unbounded();
    let mut mgr = SimManager::new(ack.1);
    assert!(mgr.sim_can_end());
    mgr.register_do_not_end(7);
    assert!(!mgr.sim_can_end());
    mgr.register_can_end(7);
    assert!(mgr.sim_can_end());
    // registering twice still needs only one release
    mgr.register_do_not_end(9);
    mgr.register_do_not_end(9);
    assert!(!mgr.sim_can_end());
    mgr.register_can_end(9);
    assert!(mgr.sim_can_end());
    // releasing an id that never held is harmless
    mgr.register_can_end(8);
    assert!(mgr.sim_can_end());
}

#[test]
fn clock_subscriber_gets_one_tick_per_cycle() {
    let ack = unbounded();
    let mut mgr = SimManager::new(ack.1);
    let (cs, cr) = unbounded::<Event>();
    mgr.register_clock_tick(cs);

    assert!(mgr.run_cycle(4).unwrap());
    assert_eq!(mgr.get_curr_cycle(), 1);
    let tick = cr.try_recv().unwrap();
    assert_eq!(tick.get_scheduled_time(), 1);
    assert_eq!(tick.get_payload(), Payload::Unit);
    assert_eq!(tick.get_event_id(), 0);
    // exactly one tick, and it is in flight until acknowledged
    assert!(cr.try_recv().is_err());
    assert!(mgr.rob.contains(&0));

    ack.0.try_send(0).unwrap();
    mgr.recv_ack().unwrap();
    assert!(!mgr.rob.contains(&0));
    assert_eq!(mgr.get_event_processed(), Ok(1));

    // next cycle, next tick, fresh id
    assert!(mgr.run_cycle(4).unwrap());
    let tick2 = cr.try_recv().unwrap();
    assert_eq!(tick2.get_scheduled_time(), 2);
    assert_eq!(tick2.get_event_id(), 1);
}

#[test]
fn run_cycle_end_reports_quiescence_or_budget() {
    let ack = unbounded();
    let mut mgr = SimManager::new(ack.1);
    // an empty coordinator is quiescent at once
    assert_eq!(mgr.run_cycle_end(1), Ok(true));

    // with an unacknowledged delivery the budget runs out instead
    let id = mgr.request_new_event_id();
    let (s, _r) = unbounded::<Event>();
    mgr.proxy_event(Event::new(id, 0, packet(0)), s);
    assert_eq!(mgr.run_cycle_end(3), Ok(false));
    // the acknowledgment arrives: quiescence on the next attempt
    ack.0.try_send(id).unwrap();
    assert_eq!(mgr.run_cycle_end(3), Ok(true));
}

#[test]
fn stalled_trailing_drain_reports_incomplete_cycle() {
    let ack = unbounded();
    let mut mgr = SimManager::new(ack.1);
    mgr.register_do_not_end(1);
    let (cs, cr) = unbounded::<Event>();
    mgr.register_clock_tick(cs);
    // the cycle advances and the tick is delivered, but with the vote held
    // and the tick unacknowledged the cycle is not reported complete
    assert_eq!(mgr.run_cycle(3), Ok(false));
    assert_eq!(mgr.get_curr_cycle(), 1);
    assert!(cr.try_recv().is_ok());
    assert!(mgr.rob.contains(&0));
    // the acknowledgment arrives and the vote is released: the next call
    // completes its cycle
    ack.0.try_send(0).unwrap();
    mgr.register_can_end(1);
    assert_eq!(mgr.run_cycle(3), Ok(true));
    assert_eq!(mgr.get_curr_cycle(), 2);
}

#[test]
fn run_terminates_when_vote_passes() {
    let ack = unbounded();
    let mut mgr = SimManager::new(ack.1);
    assert_eq!(mgr.run(3, 4), Ok(true));
    assert_eq!(mgr.get_curr_cycle(), 1);

    // while some component holds the vote, the budget runs out instead
    let ack2 = unbounded();
    let mut mgr2 = SimManager::new(ack2.1);
    mgr2.register_do_not_end(1);
    assert_eq!(mgr2.run(3, 4), Ok(false));
    assert_eq!(mgr2.get_curr_cycle(), 3);
}

#[test]
fn exhausted_counters_are_surfaced() {
    // the cycle counter cannot grow past its largest value
    let ack = unbounded();
    let mut mgr = SimManager::new(ack.1);
    mgr.curr_cycle = u128::MAX;
    assert_eq!(mgr.run_cycle(2), Err(SimError::SimManagerError));

    // nor can ids be allocated past the id space
    let ack2 = unbounded();
    let mut mgr2 = SimManager::new(ack2.1);
    let (cs, _cr) = unbounded::<Event>();
    mgr2.register_clock_tick(cs);
    mgr2.next_event_id = u128::MAX;
    assert_eq!(mgr2.run_cycle(2), Err(SimError::SimManagerError));
}

struct NullComponent {
    component_id: ComponentId,
    polls: u64,
}

impl Component for NullComponent {
    fn init(&mut self, mgr: &mut SimManager) {
        mgr.register_do_not_end(self.component_id);
    }

    fn reset(&mut self) {
        self.polls = 0;
    }

    fn poll_recv(&mut self, mgr: &mut SimManager) {
        self.polls += 1;
        if self.polls >= 3 {
            mgr.register_can_end(self.component_id);
        }
    }

    fn get_component_id(&self) -> ComponentId {
        self.component_id
    }
}

#[test]
fn dispatcher_polls_until_vote_passes() {
    let ack = unbounded();
    let mut mgr = SimManager::new(ack.1);
    let comp = NullComponent { component_id: 4, polls: 0 };
    assert_eq!(comp.get_component_id(), 4);
    let mut dispatcher = SimDispatcher::new(vec![comp]);
    dispatcher.init(&mut mgr);
    assert!(!mgr.sim_can_end());
    // two passes are not enough for this component to satisfy itself
    assert!(!dispatcher.run(&mut mgr, 2));
    assert!(dispatcher.run(&mut mgr, 8));
    assert!(mgr.sim_can_end());
    assert_eq!(dispatcher.components[0].polls, 3);
}
