use route_rs_runtime::blackhole_link::BlackHoleLink;
use route_rs_runtime::classify_link::{Classifier, ClassifyLink, Dispatcher};
use route_rs_runtime::fork_link::ForkLink;
use route_rs_runtime::join_link::JoinLink;
use route_rs_runtime::process_link::ProcessLink;
use route_rs_runtime::processor::{Identity, Processor};
use route_rs_runtime::queue_link::QueueLink;
use route_rs_runtime::stream::{collect, immediate_stream, PacketIntervalGenerator, Step};

#[derive(Clone, Copy, Debug, PartialEq, Eq)]
enum Interface {
    Host,
    Lan,
    Wan,
    Unmarked,
}

#[derive(Clone, Copy, Debug, PartialEq, Eq)]
struct Annotated {
    outbound: Interface,
    payload: u8,
}

struct ByInterface;

impl Classifier for ByInterface {
    type Packet = Annotated;
    type Class = Interface;

    fn class_of(packet: Annotated) -> Interface {
        packet.outbound
    }

    fn classify(&self, packet: &Annotated) -> Interface {
        Self::class_of(*packet)
    }
}

struct InterfaceDispatch;

impl Dispatcher for InterfaceDispatch {
    type Class = Interface;

    fn port_of(class: Interface) -> usize {
        match class {
            Interface::Host => 0,
            Interface::Lan => 1,
            Interface::Wan => 2,
            Interface::Unmarked => 3,
        }
    }

    fn dispatch(&self, class: Interface) -> usize {
        Self::port_of(class)
    }
}

struct Payload;

impl Processor for Payload {
    type Input = Annotated;
    type Output = Vec<u8>;

    fn apply(packet: Annotated) -> Option<Vec<u8>> {
        Some(vec![packet.payload])
    }

    fn process(&mut self, packet: Annotated) -> Option<Vec<u8>> {
        Self::apply(packet)
    }
}

fn annotated_packets() -> Vec<Annotated> {
    let tags = [
        Interface::Host,
        Interface::Lan,
        Interface::Wan,
        Interface::Unmarked,
    ];
    let mut packets = Vec::new();
    for round in 0..3u8 {
        for (i, tag) in tags.iter().enumerate() {
            packets.push(Annotated {
                outbound: *tag,
                payload: round * 4 + i as u8,
            });
        }
    }
    packets
}

#[test]
fn interface_dispatch() {
    let packets = annotated_packets();
    assert_eq!(packets.len(), 12);

    let mut join = JoinLink::new()
        .ingressors(vec![
            immediate_stream(packets.clone()),
            immediate_stream(packets.clone()),
            immediate_stream(packets.clone()),
        ])
        .build_link();
    let joined = join.run();
    assert_eq!(joined.len(), 36);

    let mut dispatch = ClassifyLink::new()
        .ingressor(immediate_stream(joined))
        .classifier(ByInterface)
        .dispatcher(InterfaceDispatch)
        .num_egressors(4)
        .build_link();
    let mut dispatched = dispatch.run();

    // Unmarked packets leave by no interface.
    let mut unmarked = BlackHoleLink::new()
        .ingressors(vec![immediate_stream(dispatched.pop().unwrap())])
        .build_link();
    assert_eq!(unmarked.poll(), Step::Done);

    let mut egressors = Vec::new();
    for packets in dispatched {
        let mut link = ProcessLink::new()
            .ingressor(immediate_stream(packets))
            .processor(Payload)
            .build_link();
        egressors.push(collect(&mut link));
    }

    assert_eq!(egressors.len(), 3);
    assert_eq!(egressors[0].len(), 9);
    assert_eq!(egressors[1].len(), 9);
    assert_eq!(egressors[2].len(), 9);
    assert_eq!(egressors[0][0], vec![0]);
    assert_eq!(egressors[1][0], vec![1]);
    assert_eq!(egressors[2][0], vec![2]);
}

#[test]
fn identity_single_stage() {
    let packets = vec![0, 1, 2, 420, 1337, 3, 4, 5, 6, 7, 8, 9];
    let mut link = ProcessLink::new()
        .ingressor(immediate_stream(packets.clone()))
        .processor(Identity::new())
        .build_link();
    assert_eq!(collect(&mut link), packets);
}

#[test]
fn queue_process_queue_in_series() {
    let packets: Vec<i32> = (0..300).collect();
    let first = QueueLink::new()
        .ingressor(PacketIntervalGenerator::new(3, packets.clone()))
        .queue_capacity(1)
        .build_link();
    let middle = ProcessLink::new().ingressor(first).processor(Identity::new()).build_link();
    let mut last = QueueLink::new().ingressor(middle).queue_capacity(1000).build_link();
    assert_eq!(collect(&mut last), packets);
}

#[test]
fn fork_then_join_doubles_every_packet() {
    let packets = vec![0, 1, 2, 420, 1337, 3, 4, 5, 6, 7, 8, 9];
    let mut fork = ForkLink::new()
        .ingressor(immediate_stream(packets.clone()))
        .num_egressors(2)
        .build_link();
    assert!(fork.full_port().is_none());
    let copies = fork.run();

    let mut join = JoinLink::new()
        .ingressors(copies.into_iter().map(immediate_stream).collect())
        .build_link();
    let merged = join.run();

    let expected: Vec<i32> = packets.iter().flat_map(|p| vec![*p, *p]).collect();
    assert_eq!(merged, expected);
}
