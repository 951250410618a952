use route_rs_runtime::fork_link::{ForkIngressor, ForkLink};
use route_rs_runtime::stream::{
    immediate_stream, ImmediateStream, PacketIntervalGenerator, PacketStream, Pull, Step,
};

const PRODUCER: usize = 0;

fn run_link<S: PacketStream>(mut link: ForkIngressor<S>) -> Vec<Vec<S::Item>>
where
    S::Item: Clone,
{
    link.run()
}

#[test]
fn fork_link_builder_methods_work_in_any_order() {
    ForkLink::<ImmediateStream<i32>>::new()
        .ingressor(immediate_stream(vec![]))
        .num_egressors(2)
        .build_link();

    ForkLink::<ImmediateStream<i32>>::new()
        .num_egressors(2)
        .ingressor(immediate_stream(vec![]))
        .build_link();
}

#[test]
fn no_input() {
    let link = ForkLink::<ImmediateStream<i32>>::new()
        .ingressor(immediate_stream(vec![]))
        .num_egressors(1)
        .build_link();

    let results = run_link(link);
    assert!(results[0].is_empty());
}

#[test]
fn one_way() {
    let packets = vec![0, 1, 2, 420, 1337, 3, 4, 5, 6, 7, 8, 9];

    let link = ForkLink::new()
        .ingressor(immediate_stream(packets.clone()))
        .num_egressors(1)
        .build_link();

    let results = run_link(link);
    assert_eq!(results[0], packets);
}

#[test]
fn two_way() {
    let packets = vec![0, 1, 2, 420, 1337, 3, 4, 5, 6, 7, 8, 9];

    let link = ForkLink::new()
        .ingressor(immediate_stream(packets.clone()))
        .num_egressors(2)
        .build_link();

    let results = run_link(link);
    assert_eq!(results[0], packets.clone());
    assert_eq!(results[1], packets);
}

#[test]
fn three_way() {
    let packets = vec![0, 1, 2, 420, 1337, 3, 4, 5, 6, 7, 8, 9];

    let link = ForkLink::new()
        .ingressor(immediate_stream(packets.clone()))
        .num_egressors(3)
        .build_link();

    let results = run_link(link);
    assert_eq!(results[0], packets.clone());
    assert_eq!(results[1], packets.clone());
    assert_eq!(results[2], packets);
}

#[test]
fn fork_link_is_complete_only_with_stream_and_ports() {
    let empty = ForkLink::<ImmediateStream<i32>>::new();
    assert!(!empty.is_complete());
    let half = empty.num_egressors(10);
    assert!(!half.is_complete());
    let full = half.ingressors(vec![immediate_stream(vec![])]);
    assert!(full.is_complete());
}

#[test]
fn fork_accepts_the_bounds_of_the_valid_range() {
    let link = ForkLink::new()
        .ingressor(immediate_stream(vec![1, 2, 3]))
        .queue_capacity(1)
        .num_egressors(1000)
        .build_link();
    assert_eq!(link.num_ports(), 1000);

    let results = run_link(link);
    assert_eq!(results.len(), 1000);
    assert_eq!(results[0], vec![1, 2, 3]);
    assert_eq!(results[999], vec![1, 2, 3]);

    let mut wide = ForkLink::new()
        .ingressor(immediate_stream(vec![7; 1000]))
        .queue_capacity(1000)
        .num_egressors(1)
        .build_link();
    assert_eq!(wide.poll(PRODUCER).0, Step::Blocked);
    assert_eq!(wide.pull(0, 1).0, Pull::Item(7));
}

#[test]
fn fork_producer_parks_on_the_first_full_port_and_is_woken_by_its_consumer() {
    let mut link = ForkLink::new()
        .ingressor(immediate_stream(vec![1, 2, 3]))
        .queue_capacity(2)
        .num_egressors(2)
        .build_link();

    // Two packets fill both queues; the third finds port 0 full. The
    // wake-ups raised by the sends are still pending, so the producer is
    // first told to come back and parks at its next turn.
    assert_eq!(link.step(PRODUCER), (Step::Progress, vec![]));
    assert_eq!(link.step(PRODUCER), (Step::Progress, vec![]));
    assert_eq!(link.step(PRODUCER), (Step::Blocked, vec![PRODUCER]));
    assert_eq!(link.full_port(), Some(0));
    assert_eq!(link.step(PRODUCER), (Step::Blocked, vec![]));
    assert!(!link.is_finished());

    // Port 1 drains: the producer is parked on port 0, so nobody is woken
    // and the producer is still blocked.
    assert_eq!(link.pull(1, 2), (Pull::Item(1), None));
    assert_eq!(link.step(PRODUCER), (Step::Blocked, vec![]));

    // Port 0 drains: its consumer wakes the producer.
    assert_eq!(link.pull(0, 1), (Pull::Item(1), Some(PRODUCER)));
    assert_eq!(link.step(PRODUCER), (Step::Progress, vec![]));
    assert_eq!(link.pull(0, 1), (Pull::Item(2), None));
    assert_eq!(link.pull(0, 1), (Pull::Item(3), None));
    assert_eq!(link.pull(1, 2), (Pull::Item(2), None));
    assert_eq!(link.pull(1, 2), (Pull::Item(3), None));
    assert_eq!(link.step(PRODUCER), (Step::Done, vec![]));
}

#[test]
fn fork_consumer_parks_on_an_empty_queue_and_is_woken_by_the_producer() {
    let mut link = ForkLink::new()
        .ingressor(immediate_stream(vec![5]))
        .num_egressors(2)
        .build_link();

    assert_eq!(link.pull(1, 42), (Pull::NotReady, None));
    assert_eq!(link.step(PRODUCER), (Step::Progress, vec![42]));
    assert_eq!(link.pull(1, 42), (Pull::Item(5), None));
    assert_eq!(link.pull(0, 41), (Pull::Item(5), None));
}

#[test]
fn fork_end_of_input_releases_parked_consumers_and_ends_every_port() {
    let mut link = ForkLink::<ImmediateStream<i32>>::new()
        .ingressor(immediate_stream(vec![]))
        .num_egressors(3)
        .build_link();

    assert_eq!(link.pull(0, 10), (Pull::NotReady, None));
    assert_eq!(link.pull(2, 12), (Pull::NotReady, None));
    assert_eq!(link.poll(PRODUCER), (Step::Done, vec![10, 12]));
    assert!(link.is_finished());
    for port in 0..3 {
        assert_eq!(link.pull(port, 10 + port), (Pull::End, None));
    }
    assert_eq!(link.poll(PRODUCER), (Step::Done, vec![]));
}

#[test]
fn fork_early_shutdown_lets_consumers_drain_and_then_end() {
    let mut link = ForkLink::new()
        .ingressor(immediate_stream(vec![1, 2, 3]))
        .num_egressors(1)
        .build_link();

    assert_eq!(link.step(PRODUCER).0, Step::Progress);
    assert_eq!(link.shutdown(), vec![]);
    assert_eq!(link.pull(0, 1), (Pull::Item(1), None));
    assert_eq!(link.pull(0, 1), (Pull::End, None));
    assert_eq!(link.step(PRODUCER), (Step::Done, vec![]));
}

#[test]
fn fork_waits_for_a_slow_input() {
    let packets = vec![0, 1, 2, 420, 1337, 3, 4, 5, 6, 7, 8, 9];
    let mut link = ForkLink::new()
        .ingressor(PacketIntervalGenerator::new(10, packets.clone()))
        .num_egressors(2)
        .build_link();

    assert_eq!(link.poll(PRODUCER), (Step::Blocked, vec![]));
    let results = link.run();
    assert_eq!(results[0], packets.clone());
    assert_eq!(results[1], packets);
}
