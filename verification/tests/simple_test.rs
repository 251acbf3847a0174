use crossbeam_channel::unbounded;
use rsim_core::component::Component;
use rsim_core::event::{Event, Payload};
use rsim_core::rx::{Rx, RxType};
use rsim_core::sim_dispatcher::SimDispatcher;
use rsim_core::sim_manager::SimManager;
use rsim_core::tx::Tx;
use rsim_core::types::ComponentId;

struct SimpleSender {
    component_id: ComponentId,
    num_packets: u64,
    sent_count: u64,
    output: Tx,
    clock_rx: Rx,
    clock_sender: crossbeam_channel::Sender<Event>,
    clock_acks: u128,
}

impl SimpleSender {
    fn on_clock(&mut self, mgr: &mut SimManager) {
        if self.sent_count < self.num_packets {
            let is_last = self.sent_count == self.num_packets - 1;
            self.output.send(
                mgr,
                Payload::Packet { packet_id: self.sent_count, is_last },
                10,
            );
        } else {
            mgr.register_can_end(self.component_id);
        }
        self.sent_count += 1;
    }
}

impl Component for SimpleSender {
    fn init(&mut self, mgr: &mut SimManager) {
        mgr.register_clock_tick(self.clock_sender.clone());
        mgr.register_do_not_end(self.component_id);
    }

    fn reset(&mut self) {
        self.sent_count = 0;
    }

    fn poll_recv(&mut self, mgr: &mut SimManager) {
        if self.clock_rx.try_recv() != RxType::NoValue {
            self.on_clock(mgr);
            self.clock_rx.ack();
            self.clock_acks += 1;
        }
    }

    fn get_component_id(&self) -> ComponentId {
        self.component_id
    }
}

struct SimpleLink {
    component_id: ComponentId,
    input: Rx,
    output: Tx,
}

impl Component for SimpleLink {
    fn init(&mut self, _mgr: &mut SimManager) {}

    fn reset(&mut self) {}

    fn poll_recv(&mut self, mgr: &mut SimManager) {
        match self.input.try_recv() {
            RxType::NewValue => {
                let data = self.input.get_value();
                self.output.send(mgr, data, 0);
                self.input.ack();
            }
            RxType::OldValue => {
                self.input.ack();
            }
            RxType::NoValue => {}
        }
    }

    fn get_component_id(&self) -> ComponentId {
        self.component_id
    }
}

struct SimpleReceiver {
    component_id: ComponentId,
    input: Rx,
    received: u128,
}

impl Component for SimpleReceiver {
    fn init(&mut self, mgr: &mut SimManager) {
        mgr.register_do_not_end(self.component_id);
    }

    fn reset(&mut self) {}

    fn poll_recv(&mut self, mgr: &mut SimManager) {
        match self.input.try_recv() {
            RxType::NewValue => {
                self.received += 1;
                if let Payload::Packet { is_last: true, .. } = self.input.get_value() {
                    mgr.register_can_end(self.component_id);
                }
                self.input.ack();
            }
            RxType::OldValue => {
                self.input.ack();
            }
            RxType::NoValue => {}
        }
    }

    fn get_component_id(&self) -> ComponentId {
        self.component_id
    }
}

#[test]
fn simple_test() {
    let ack_channel = unbounded();

    let mut sim_manager = SimManager::new(ack_channel.1);

    let mut sender_output = Tx::new(ack_channel.0.clone());
    let mut link_output = Tx::new(ack_channel.0.clone());
    let link_input = sender_output.add_rx();
    let receiver_input = link_output.add_rx();

    let clock_channel = unbounded();
    let sender = SimpleSender {
        component_id: 1,
        num_packets: 100,
        sent_count: 0,
        output: sender_output,
        clock_rx: Rx::new(clock_channel.1, ack_channel.0.clone()),
        clock_sender: clock_channel.0,
        clock_acks: 0,
    };

    let link = SimpleLink { component_id: 0, input: link_input, output: link_output };

    let receiver = SimpleReceiver { component_id: 2, input: receiver_input, received: 0 };

    let mut sender_dispatcher = SimDispatcher::new(vec![sender]);
    let mut link_dispatcher = SimDispatcher::new(vec![link]);
    let mut receiver_dispatcher = SimDispatcher::new(vec![receiver]);

    sender_dispatcher.init(&mut sim_manager);
    link_dispatcher.init(&mut sim_manager);
    receiver_dispatcher.init(&mut sim_manager);

    let mut iterations: u64 = 0;
    loop {
        sender_dispatcher.poll_pass(&mut sim_manager);
        link_dispatcher.poll_pass(&mut sim_manager);
        receiver_dispatcher.poll_pass(&mut sim_manager);
        let done = sim_manager.run_cycle(8).unwrap();
        if done && sim_manager.sim_can_end() {
            break;
        }
        iterations += 1;
        if iterations > 100_000 {
            panic!("simulation failed to terminate");
        }
    }

    let event_processed = sim_manager.get_event_processed().unwrap_or(0);
    let sender = &sender_dispatcher.components[0];
    let receiver = &receiver_dispatcher.components[0];
    assert_eq!(receiver.received, 100);
    // 100 sender-to-link deliveries, 100 link-to-receiver deliveries, plus
    // every clock tick the sender consumed
    assert_eq!(event_processed, 200 + sender.clock_acks);
    println!("Finished processing {} events", event_processed);
}
