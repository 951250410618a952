use route_rs_runtime::classify_link::{
    Classifier, ClassifyLink, Dispatcher, Evenness, TrueFirst,
};
use route_rs_runtime::stream::{immediate_stream, ImmediateStream, PacketIntervalGenerator, Pull, Step};

const PRODUCER: usize = 0;

struct Parity;

impl Classifier for Parity {
    type Packet = i32;
    type Class = bool;

    fn class_of(packet: i32) -> bool {
        packet % 2 == 0
    }

    fn classify(&self, packet: &i32) -> bool {
        Self::class_of(*packet)
    }
}

struct EvenFirst;

impl Dispatcher for EvenFirst {
    type Class = bool;

    fn port_of(even: bool) -> usize {
        if even {
            0
        } else {
            1
        }
    }

    fn dispatch(&self, even: bool) -> usize {
        Self::port_of(even)
    }
}

#[test]
fn classify_by_parity() {
    let packets = vec![0, 1, 2, 420, 1337, 3, 4, 5, 6, 7, 8, 9];

    let mut link = ClassifyLink::new()
        .ingressor(immediate_stream(packets))
        .classifier(Parity)
        .dispatcher(EvenFirst)
        .num_egressors(2)
        .build_link();

    let results = link.run();
    assert_eq!(results.len(), 2);
    assert_eq!(results[0], vec![0, 2, 420, 4, 6, 8]);
    assert_eq!(results[1], vec![1, 1337, 3, 5, 7, 9]);
}

#[test]
fn classify_partitions_its_input() {
    let packets: Vec<i32> = (0..500).map(|i| (i * 37) % 101).collect();

    let mut link = ClassifyLink::new()
        .ingressor(PacketIntervalGenerator::new(1, packets.clone()))
        .classifier(Parity)
        .dispatcher(EvenFirst)
        .queue_capacity(3)
        .num_egressors(2)
        .build_link();

    let results = link.run();
    let even: Vec<i32> = packets.iter().copied().filter(|p| p % 2 == 0).collect();
    let odd: Vec<i32> = packets.iter().copied().filter(|p| p % 2 != 0).collect();
    assert_eq!(results[0], even);
    assert_eq!(results[1], odd);
    assert_eq!(results[0].len() + results[1].len(), packets.len());
}

#[test]
fn classify_builder_methods_work_in_any_order() {
    let first = ClassifyLink::new()
        .num_egressors(2)
        .dispatcher(EvenFirst)
        .classifier(Parity)
        .ingressor(immediate_stream(vec![]));
    assert!(first.is_complete());
    first.build_link();

    let empty = ClassifyLink::<ImmediateStream<i32>, Parity, EvenFirst>::new();
    assert!(!empty.is_complete());
    assert!(!empty.ingressor(immediate_stream(vec![])).classifier(Parity).num_egressors(2).is_complete());
}

#[test]
fn classify_producer_holds_the_packet_while_its_port_is_full() {
    let mut link = ClassifyLink::new()
        .ingressor(immediate_stream(vec![1, 3, 2, 5]))
        .classifier(Parity)
        .dispatcher(EvenFirst)
        .queue_capacity(1)
        .num_egressors(2)
        .build_link();

    assert_eq!(link.step(PRODUCER), (Step::Progress, vec![]));
    // 3 belongs to port 1, which is full: the wake-up raised by the send is
    // still pending, so the producer is told to come back, and then parks.
    assert_eq!(link.step(PRODUCER), (Step::Blocked, vec![PRODUCER]));
    assert_eq!(link.step(PRODUCER), (Step::Blocked, vec![]));
    // Port 0 is empty, but the producer does not advance past the held packet.
    assert_eq!(link.pull(0, 1), (Pull::NotReady, None));
    assert_eq!(link.pull(1, 2), (Pull::Item(1), Some(PRODUCER)));
    assert_eq!(link.step(PRODUCER), (Step::Progress, vec![]));
    assert_eq!(link.step(PRODUCER), (Step::Progress, vec![1]));
    assert_eq!(link.pull(0, 1), (Pull::Item(2), None));
    assert_eq!(link.pull(1, 2), (Pull::Item(3), None));
    assert_eq!(link.poll(PRODUCER).0, Step::Done);
    assert_eq!(link.pull(1, 2), (Pull::Item(5), None));
    assert_eq!(link.pull(1, 2), (Pull::End, None));
    assert_eq!(link.pull(0, 1), (Pull::End, None));
}

#[test]
fn classify_early_shutdown_ends_every_port() {
    let mut link = ClassifyLink::new()
        .ingressor(immediate_stream(vec![2, 4, 6]))
        .classifier(Parity)
        .dispatcher(EvenFirst)
        .num_egressors(2)
        .build_link();

    assert_eq!(link.num_ports(), 2);
    assert_eq!(link.pull(1, 2), (Pull::NotReady, None));
    assert_eq!(link.step(PRODUCER).0, Step::Progress);
    assert_eq!(link.shutdown(), vec![2]);
    assert!(link.is_finished());
    assert_eq!(link.pull(0, 1), (Pull::Item(2), None));
    assert_eq!(link.pull(0, 1), (Pull::End, None));
    assert_eq!(link.pull(1, 2), (Pull::End, None));
    assert_eq!(link.poll(PRODUCER), (Step::Done, vec![]));
}

#[test]
fn evenness_sends_even_numbers_to_port_zero() {
    assert!(Evenness.classify(&0));
    assert!(!Evenness.classify(&1));
    assert!(Evenness.classify(&-4));
    assert!(!Evenness.classify(&-3));
    assert!(!Evenness.classify(&i32::MAX));
    assert!(Evenness.classify(&i32::MIN));
    assert_eq!(TrueFirst.dispatch(true), 0);
    assert_eq!(TrueFirst.dispatch(false), 1);

    let mut link = ClassifyLink::new()
        .ingressor(immediate_stream(vec![0, 1, 2, 420, 1337, 3, -4, -5, 6, 7, 8, 9]))
        .classifier(Evenness)
        .dispatcher(TrueFirst)
        .num_egressors(2)
        .build_link();

    let results = link.run();
    assert_eq!(results[0], vec![0, 2, 420, -4, 6, 8]);
    assert_eq!(results[1], vec![1, 1337, 3, -5, 7, 9]);
}
