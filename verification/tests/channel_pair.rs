use crossbeam_channel::unbounded;
use rsim_core::clock_event::ClockEvent;
use rsim_core::event::{Event, EventValue, Payload};
use rsim_core::rx::{get_inner, Rx, RxType};
use rsim_core::tx::Tx;

fn packet(packet_id: u64, is_last: bool) -> Payload {
    Payload::Packet { packet_id, is_last }
}

#[test]
fn try_recv_on_empty_channel_is_no_value() {
    let (_event_tx, event_rx) = unbounded::<Event>();
    let (ack_tx, _ack_rx) = unbounded::<u128>();
    let mut rx = Rx::new(event_rx, ack_tx);
    assert_eq!(rx.try_recv(), RxType::NoValue);
    assert_eq!(rx.get_value(), Payload::Unit);
}

#[test]
fn repeated_equal_value_classifies_old_value() {
    let (event_tx, event_rx) = unbounded::<Event>();
    let (ack_tx, _ack_rx) = unbounded::<u128>();
    let mut rx = Rx::new(event_rx, ack_tx);

    event_tx.try_send(Event::new(0, 3, packet(7, false))).unwrap();
    event_tx.try_send(Event::new(1, 4, packet(7, false))).unwrap();
    event_tx.try_send(Event::new(2, 5, packet(8, false))).unwrap();

    // first reception of a value is a change
    assert_eq!(rx.try_recv(), RxType::NewValue);
    assert_eq!(rx.get_value(), packet(7, false));
    // an equal value right after is an idempotent repeat, never NewValue
    assert_eq!(rx.try_recv(), RxType::OldValue);
    assert_eq!(rx.get_value(), packet(7, false));
    // a differing value is a change again
    assert_eq!(rx.try_recv(), RxType::NewValue);
    assert_eq!(rx.get_value(), packet(8, false));
}

#[test]
fn ack_sends_the_remembered_id_once() {
    let (event_tx, event_rx) = unbounded::<Event>();
    let (ack_tx, ack_rx) = unbounded::<u128>();
    let mut rx = Rx::new(event_rx, ack_tx);

    event_tx.try_send(Event::new(42, 0, packet(1, false))).unwrap();
    assert_eq!(rx.try_recv(), RxType::NewValue);
    rx.ack();
    assert_eq!(ack_rx.try_recv(), Ok(42));
    // nothing pending any more: ack is a no-op
    rx.ack();
    assert!(ack_rx.try_recv().is_err());
}

#[test]
fn reset_clears_transient_state_but_keeps_wiring() {
    let (event_tx, event_rx) = unbounded::<Event>();
    let (ack_tx, ack_rx) = unbounded::<u128>();
    let mut rx = Rx::new(event_rx, ack_tx);

    event_tx.try_send(Event::new(5, 0, packet(9, true))).unwrap();
    assert_eq!(rx.try_recv(), RxType::NewValue);
    rx.reset();
    assert_eq!(rx.get_value(), Payload::Unit);
    // the pending id was cleared, so ack sends nothing
    rx.ack();
    assert!(ack_rx.try_recv().is_err());
    // the channel is still wired: a new event still arrives
    event_tx.try_send(Event::new(6, 0, packet(9, true))).unwrap();
    assert_eq!(rx.try_recv(), RxType::NewValue);
}

#[test]
fn tx_stores_value_and_fans_out_to_subscribers() {
    let (ack_tx, _ack_rx) = unbounded::<u128>();
    let mut tx = Tx::new(ack_tx);
    assert_eq!(tx.get_value(), Payload::Unit);

    let mut rx_a = tx.add_rx();
    let mut rx_b = tx.add_rx();

    let ack_channel = unbounded();
    let mut mgr = rsim_core::sim_manager::SimManager::new(ack_channel.1);

    tx.send(&mut mgr, packet(3, false), 5);
    assert_eq!(tx.get_value(), packet(3, false));
    // two subscribers: two tasks were enqueued, nothing delivered yet
    assert_eq!(mgr.event_q.len(), 2);
    assert_eq!(rx_a.try_recv(), RxType::NoValue);
    assert_eq!(rx_b.try_recv(), RxType::NoValue);
}

#[test]
fn get_inner_extracts_the_payload() {
    let event = Event::new(11, 4, packet(2, true));
    assert_eq!(get_inner(&event), packet(2, true));
    assert_eq!(event.get_event_id(), 11);
    assert_eq!(event.get_scheduled_time(), 4);
    assert_eq!(event.get_payload(), packet(2, true));
}

#[test]
fn clock_event_builds_a_unit_event() {
    let ce = ClockEvent::new(9, 31);
    assert_eq!(ce.get_event_id(), 31);
    assert_eq!(ce.get_scheduled_time(), 9);
    let event = ce.to_event();
    assert_eq!(event.get_event_id(), 31);
    assert_eq!(event.get_scheduled_time(), 9);
    assert_eq!(event.get_payload(), Payload::Unit);
}

#[test]
fn build_event_wraps_the_value() {
    let value = packet(8, false);
    let event = value.build_event(21, 13);
    assert_eq!(event.get_event_id(), 21);
    assert_eq!(event.get_scheduled_time(), 13);
    assert_eq!(event.get_payload(), value);
}
