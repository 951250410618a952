use route_rs_runtime::process_link::{ProcessLink, ProcessRunner};
use route_rs_runtime::processor::{Drop, Identity, Processor, TransformFrom};
use route_rs_runtime::stream::{
    collect, immediate_stream, ImmediateStream, PacketIntervalGenerator, PacketStream, Pull,
};

fn run_link<S: PacketStream>(mut link: S) -> Vec<Vec<S::Item>> {
    vec![collect(&mut link)]
}

struct Doubler;

impl Processor for Doubler {
    type Input = i32;
    type Output = i32;

    fn apply(packet: i32) -> Option<i32> {
        Some(packet * 2)
    }

    fn process(&mut self, packet: i32) -> Option<i32> {
        Self::apply(packet)
    }
}

struct KeepEven;

impl Processor for KeepEven {
    type Input = i32;
    type Output = i32;

    fn apply(packet: i32) -> Option<i32> {
        if packet % 2 == 0 {
            Some(packet)
        } else {
            None
        }
    }

    fn process(&mut self, packet: i32) -> Option<i32> {
        Self::apply(packet)
    }
}

#[test]
fn process_link_builder_methods_work_in_any_order() {
    let packets: Vec<i32> = vec![];

    ProcessLink::new()
        .ingressor(immediate_stream(packets.clone()))
        .processor(Identity::new())
        .build_link();

    ProcessLink::new()
        .processor(Identity::new())
        .ingressor(immediate_stream(packets.clone()))
        .build_link();
}

#[test]
fn identity() {
    let packets = vec![0, 1, 2, 420, 1337, 3, 4, 5, 6, 7, 8, 9];

    let link = ProcessLink::new()
        .ingressor(immediate_stream(packets.clone()))
        .processor(Identity::new())
        .build_link();

    let results = run_link(link);
    assert_eq!(results[0], packets);
}

#[test]
fn wait_between_packets() {
    let packets = vec![0, 1, 2, 420, 1337, 3, 4, 5, 6, 7, 8, 9];
    let packet_generator = PacketIntervalGenerator::new(10, packets.clone());

    let link = ProcessLink::new()
        .ingressor(packet_generator)
        .processor(Identity::new())
        .build_link();

    let results = run_link(link);
    assert_eq!(results[0], packets);
}

#[test]
fn type_transform() {
    let packets = "route-rs".chars();
    let packet_generator = immediate_stream(packets.clone().collect());

    let link = ProcessLink::new()
        .ingressor(packet_generator)
        .processor(TransformFrom::<char, u32>::new())
        .build_link();

    let results = run_link(link);
    let expected_output: Vec<u32> = packets.map(|p| p.into()).collect();
    assert_eq!(results[0], expected_output);
}

#[test]
fn drop() {
    let packets = vec![0, 1, 2, 420, 1337, 3, 4, 5, 6, 7, 8, 9];

    let link = ProcessLink::new()
        .ingressor(immediate_stream(packets.clone()))
        .processor(Drop::new())
        .build_link();

    let results = run_link(link);
    assert_eq!(results[0], []);
}

#[test]
fn process_link_with_one_listed_ingressor() {
    let link = ProcessLink::new()
        .ingressors(vec![immediate_stream(vec![5, 6])])
        .processor(Identity::new())
        .build_link();

    assert_eq!(run_link(link)[0], vec![5, 6]);
}

#[test]
fn process_link_is_complete_only_with_both_parts() {
    let empty = ProcessLink::<ImmediateStream<i32>, Identity<i32>>::new();
    assert!(!empty.is_complete());
    let half = empty.ingressor(immediate_stream(vec![]));
    assert!(!half.is_complete());
    let full = half.processor(Identity::new());
    assert!(full.is_complete());
}

#[test]
fn user_processor_is_applied_to_each_packet() {
    let link: ProcessRunner<ImmediateStream<i32>, Doubler> = ProcessLink::new()
        .ingressor(immediate_stream(vec![1, 2, 3]))
        .processor(Doubler)
        .build_link();

    let results = run_link(link);
    assert_eq!(results[0], vec![2, 4, 6]);
}

#[test]
fn dropped_packets_are_skipped_within_one_pull() {
    let mut link = ProcessLink::new()
        .ingressor(immediate_stream(vec![1, 3, 4, 5, 7]))
        .processor(KeepEven)
        .build_link();

    assert_eq!(link.pull(), Pull::Item(4));
    assert_eq!(link.pull(), Pull::End);
}

#[test]
fn not_ready_passes_through_a_process_link() {
    let mut link = ProcessLink::new()
        .ingressor(PacketIntervalGenerator::new(2, vec![8]))
        .processor(Identity::new())
        .build_link();

    assert_eq!(link.pull(), Pull::NotReady);
    assert_eq!(link.pull(), Pull::NotReady);
    assert_eq!(link.pull(), Pull::Item(8));
    assert_eq!(link.pull(), Pull::End);
}

#[test]
fn process_links_compose() {
    let first = ProcessLink::new()
        .ingressor(immediate_stream(vec![1, 2, 3, 4]))
        .processor(KeepEven)
        .build_link();
    let second = ProcessLink::new().ingressor(first).processor(Doubler).build_link();

    assert_eq!(run_link(second)[0], vec![4, 8]);
}

#[test]
fn pull_after_end_is_end_again() {
    let mut stream = immediate_stream(vec![7]);
    assert_eq!(stream.pull(), Pull::Item(7));
    assert_eq!(stream.pull(), Pull::End);
    assert_eq!(stream.pull(), Pull::End);
}

#[test]
fn interval_generator_waits_before_each_packet() {
    let mut stream = PacketIntervalGenerator::new(1, vec![1, 2]);
    assert_eq!(stream.pull(), Pull::NotReady);
    assert_eq!(stream.pull(), Pull::Item(1));
    assert_eq!(stream.pull(), Pull::NotReady);
    assert_eq!(stream.pull(), Pull::Item(2));
    assert_eq!(stream.pull(), Pull::End);
}

#[test]
fn interval_generator_without_interval_never_waits() {
    let mut stream = PacketIntervalGenerator::new(0, vec![1, 2]);
    assert_eq!(collect(&mut stream), vec![1, 2]);
}
