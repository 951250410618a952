use route_rs_runtime::blackhole_link::{drain_ready, BlackHole, BlackHoleLink};
use route_rs_runtime::classify_link::{Classifier, ClassifyLink, Dispatcher};
use route_rs_runtime::stream::{
    immediate_stream, ImmediateStream, PacketIntervalGenerator, PacketStream, Pull, Step,
};

struct ClassifyEvenness {}

impl ClassifyEvenness {
    pub fn new() -> Self {
        ClassifyEvenness {}
    }
}

impl Classifier for ClassifyEvenness {
    type Packet = i32;
    type Class = bool;

    fn class_of(packet: i32) -> bool {
        packet % 2 == 0
    }

    fn classify(&self, packet: &Self::Packet) -> Self::Class {
        Self::class_of(*packet)
    }
}

struct EvenFirst;

impl Dispatcher for EvenFirst {
    type Class = bool;

    fn port_of(evenness: bool) -> usize {
        if evenness {
            0
        } else {
            1
        }
    }

    fn dispatch(&self, evenness: bool) -> usize {
        Self::port_of(evenness)
    }
}

fn run_runnable<S: PacketStream>(mut hole: BlackHole<S>) {
    hole.run();
    assert_eq!(hole.poll(), Step::Done);
}

#[test]
fn finishes() {
    let packets = vec![0, 1, 2, 420, 1337, 3, 4, 5, 6, 7, 8, 9];
    let packet_generator = immediate_stream(packets.clone());

    let hole = BlackHoleLink::new().ingressors(vec![packet_generator]).build_link();

    run_runnable(hole);

    //In this test, we just ensure that it finishes.
}

#[test]
fn finishes_with_wait() {
    let packets = vec![0, 1, 2, 420, 1337, 3, 4, 5, 6, 7, 8, 9];
    let packet_generator = PacketIntervalGenerator::new(10, packets.clone());

    let hole = BlackHoleLink::new().ingressors(vec![packet_generator]).build_link();

    run_runnable(hole);

    //In this test, we just ensure that it finishes.
}

#[test]
fn odd_packets() {
    let default_channel_size = 10;
    let number_branches = 2;
    let packet_generator = immediate_stream(vec![0, 1, 2, 420, 1337, 3, 4, 5, 6, 7, 8, 9]);

    let elem0 = ClassifyEvenness::new();

    let mut link0 = ClassifyLink::new()
        .ingressor(packet_generator)
        .classifier(elem0)
        .dispatcher(EvenFirst)
        .queue_capacity(default_channel_size)
        .num_egressors(number_branches)
        .build_link();

    let mut egressors = link0.run();

    let hole = BlackHoleLink::new()
        .ingressors(vec![immediate_stream(egressors.pop().unwrap())])
        .build_link();
    run_runnable(hole);

    let elem0_port0_output: Vec<_> = egressors.pop().unwrap();
    assert_eq!(elem0_port0_output, vec![0, 2, 420, 4, 6, 8]);
}

#[test]
fn black_hole_link_is_complete_only_with_ingressors() {
    let empty = BlackHoleLink::<ImmediateStream<i32>>::new();
    assert!(!empty.is_complete());
    assert!(empty.ingressors(vec![]).is_complete());
}

#[test]
fn black_hole_without_ingressors_is_done_at_once() {
    let mut hole = BlackHoleLink::<ImmediateStream<i32>>::new().ingressors(vec![]).build_link();
    assert_eq!(hole.poll(), Step::Done);
}

#[test]
fn black_hole_is_done_only_when_every_ingress_has_ended() {
    let fast = PacketIntervalGenerator::new(0, vec![1, 2, 3]);
    let slow = PacketIntervalGenerator::new(1, vec![4, 5]);
    let mut hole = BlackHoleLink::new().ingressors(vec![fast, slow]).build_link();

    // The slow ingress makes the hole wait once before each of its packets.
    assert_eq!(hole.poll(), Step::Blocked);
    assert_eq!(hole.poll(), Step::Blocked);
    assert_eq!(hole.poll(), Step::Done);
    assert_eq!(hole.poll(), Step::Done);
}

#[test]
fn black_hole_leaves_nothing_in_its_ingressors() {
    let mut hole = BlackHole::new(vec![
        PacketIntervalGenerator::new(3, vec![1, 2, 3]),
        PacketIntervalGenerator::new(2, vec![]),
        PacketIntervalGenerator::new(5, vec![9]),
    ]);
    hole.run();
    assert_eq!(hole.poll(), Step::Done);
}

#[test]
fn drain_ready_stops_at_the_first_wait_and_at_the_end() {
    let mut stream = PacketIntervalGenerator::new(1, vec![6, 7]);
    assert!(!drain_ready(&mut stream));
    assert_eq!(stream.pull(), Pull::Item(6));
    assert!(!drain_ready(&mut stream));
    assert!(drain_ready(&mut stream));
    assert_eq!(stream.pull(), Pull::End);

    let mut ready = immediate_stream(vec![1, 2, 3]);
    assert!(drain_ready(&mut ready));
    assert_eq!(ready.pull(), Pull::End);
}
