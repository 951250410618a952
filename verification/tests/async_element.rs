use route_rs_runtime::async_element::{AsyncElement, AsyncElementLink};
use route_rs_runtime::process_link::ProcessLink;
use route_rs_runtime::processor::Identity;
use route_rs_runtime::queue_link::QueueLink;
use route_rs_runtime::stream::{
    collect, immediate_stream, ImmediateStream, PacketIntervalGenerator, PacketStream, Pull, Step,
};

const CONSUMER: usize = 0;
const PROVIDER: usize = 1;

#[allow(dead_code)]
struct AsyncIdentityElement {
    id: i32,
}

impl AsyncElement for AsyncIdentityElement {
    type Input = i32;
    type Output = i32;

    fn apply(packet: i32) -> i32 {
        packet
    }

    fn process(&mut self, packet: Self::Input) -> Self::Output {
        packet
    }
}

struct AsyncTrivialElement {
    id: i32,
}

impl AsyncElement for AsyncTrivialElement {
    type Input = i32;
    type Output = i32;

    fn apply(packet: i32) -> i32 {
        packet
    }

    fn process(&mut self, packet: Self::Input) -> Self::Output {
        println!("AsyncElement #{} got packet {}", self.id, packet);
        packet
    }
}

struct Negate;

impl AsyncElement for Negate {
    type Input = i32;
    type Output = i64;

    fn apply(packet: i32) -> i64 {
        -(packet as i64)
    }

    fn process(&mut self, packet: i32) -> i64 {
        Self::apply(packet)
    }
}

#[test]
fn one_async_element() {
    let default_channel_size = 10;
    let packets = vec![0, 1, 2, 420, 1337, 3, 4, 5, 6, 7, 8, 9];
    let packet_generator = PacketIntervalGenerator::new(100, packets.clone());

    let elem0 = AsyncIdentityElement { id: 0 };

    let mut elem0_link = AsyncElementLink::new(packet_generator, elem0, default_channel_size);

    let router_output: Vec<_> = elem0_link.run();
    assert_eq!(router_output, packets);
}

#[test]
fn one_async_element_long_stream() {
    let default_channel_size = 10;
    let packet_generator = immediate_stream((0..=2000).collect());

    let elem0 = AsyncIdentityElement { id: 0 };

    let mut elem0_link = AsyncElementLink::new(packet_generator, elem0, default_channel_size);

    let router_output: Vec<_> = elem0_link.run();
    assert_eq!(router_output.len(), 2001);
}

#[test]
fn two_async_elements() {
    let default_channel_size = 10;
    let packets = vec![0, 1, 2, 420, 1337, 3, 4, 5, 6, 7, 8, 9];
    let packet_generator = PacketIntervalGenerator::new(100, packets.clone());

    let elem0 = AsyncIdentityElement { id: 0 };
    let elem1 = AsyncIdentityElement { id: 1 };

    let elem0_link = AsyncElementLink::new(packet_generator, elem0, default_channel_size);
    let mut elem1_link = AsyncElementLink::new(elem0_link, elem1, default_channel_size);

    let router_output: Vec<_> = elem1_link.run();
    assert_eq!(router_output, packets);
}

#[test]
fn series_sync_and_async() {
    let default_channel_size = 10;
    let packets = vec![0, 1, 2, 420, 1337, 3, 4, 5, 6, 7, 8, 9];
    let packet_generator = PacketIntervalGenerator::new(100, packets.clone());

    let elem0 = Identity::new();
    let elem1 = AsyncIdentityElement { id: 1 };
    let elem2 = Identity::new();
    let elem3 = AsyncIdentityElement { id: 3 };

    let elem0_link = ProcessLink::new().ingressor(packet_generator).processor(elem0).build_link();
    let elem1_link = AsyncElementLink::new(elem0_link, elem1, default_channel_size);
    let elem2_link = ProcessLink::new().ingressor(elem1_link).processor(elem2).build_link();
    let mut elem3_link = AsyncElementLink::new(elem2_link, elem3, default_channel_size);

    let router_output: Vec<_> = elem3_link.run();
    assert_eq!(router_output, packets);
}

#[test]
fn one_async_element_no_waiting() {
    let default_channel_size = 10;
    let packet_generator = immediate_stream((0..20).collect());

    let elem0 = AsyncTrivialElement { id: 0 };

    let mut elem0_link = AsyncElementLink::new(packet_generator, elem0, default_channel_size);

    elem0_link.run();
}

#[test]
fn two_async_elements_no_waiting() {
    let default_channel_size = 10;
    let packet_generator = immediate_stream((0..20).collect());

    let elem0 = AsyncTrivialElement { id: 0 };
    let elem1 = AsyncTrivialElement { id: 1 };

    let elem0_link = AsyncElementLink::new(packet_generator, elem0, default_channel_size);
    let mut elem1_link = AsyncElementLink::new(elem0_link, elem1, default_channel_size);

    elem1_link.run();
}

#[test]
fn series_sync_and_async_no_waiting() {
    let default_channel_size = 10;
    let packet_generator = immediate_stream((0..20).collect());

    let elem0 = Identity::new();
    let elem1 = AsyncTrivialElement { id: 1 };
    let elem2 = Identity::new();
    let elem3 = AsyncTrivialElement { id: 3 };

    let elem0_link = ProcessLink::new().ingressor(packet_generator).processor(elem0).build_link();
    let elem1_link = AsyncElementLink::new(elem0_link, elem1, default_channel_size);
    let elem2_link = ProcessLink::new().ingressor(elem1_link).processor(elem2).build_link();
    let mut elem3_link = AsyncElementLink::new(elem2_link, elem3, default_channel_size);

    elem3_link.run();
}

#[test]
fn async_element_is_applied_to_each_packet() {
    let mut link = AsyncElementLink::new(immediate_stream(vec![1, -2, 3]), Negate, 2);
    assert_eq!(link.run(), vec![-1i64, 2, -3]);
}

#[test]
fn async_element_consumer_parks_on_the_full_queue_and_is_woken_by_the_provider() {
    let mut link = AsyncElementLink::new(immediate_stream(vec![1, 2, 3]), Negate, 2);

    assert_eq!(link.provider.poll(PROVIDER), (Pull::NotReady, None));
    assert_eq!(link.consumer.step(&mut link.provider, CONSUMER), (Step::Progress, Some(PROVIDER)));
    assert_eq!(link.consumer.step(&mut link.provider, CONSUMER), (Step::Progress, None));
    // The queue is full. The wake-up raised by the second send is still
    // pending, so the consumer is told to come back, and then parks.
    assert_eq!(link.consumer.step(&mut link.provider, CONSUMER), (Step::Blocked, Some(CONSUMER)));
    assert_eq!(link.consumer.step(&mut link.provider, CONSUMER), (Step::Blocked, None));
    assert_eq!(link.provider.poll(PROVIDER), (Pull::Item(-1), Some(CONSUMER)));
    assert_eq!(
        link.consumer.poll(&mut link.provider, CONSUMER),
        (Step::Blocked, vec![CONSUMER])
    );
    assert!(!link.consumer.is_finished());
    assert_eq!(link.provider.poll(PROVIDER), (Pull::Item(-2), None));
    assert_eq!(link.consumer.poll(&mut link.provider, CONSUMER), (Step::Done, vec![]));
    assert!(link.consumer.is_finished());
    assert_eq!(link.provider.poll(PROVIDER), (Pull::Item(-3), None));
    assert_eq!(link.provider.poll(PROVIDER), (Pull::End, None));
}

#[test]
fn async_element_consumer_ends_when_the_provider_is_dropped_early() {
    let mut link = AsyncElementLink::new(immediate_stream((0..100).collect()), Negate, 2);

    assert_eq!(link.consumer.poll(&mut link.provider, CONSUMER).0, Step::Blocked);
    assert_eq!(link.provider.poll(PROVIDER).0, Pull::Item(0));
    assert_eq!(link.consumer.poll(&mut link.provider, CONSUMER).0, Step::Blocked);
    assert_eq!(link.consumer.poll(&mut link.provider, CONSUMER), (Step::Blocked, vec![]));
    // The provider is dropped after one packet: the parked consumer is
    // released and terminates at its next turn.
    assert_eq!(link.provider.shutdown(), Some(CONSUMER));
    assert_eq!(link.consumer.poll(&mut link.provider, CONSUMER), (Step::Done, vec![]));
    assert!(link.consumer.is_finished());
}

#[test]
fn async_element_consumer_dropped_early_ends_the_provider() {
    let mut link = AsyncElementLink::new(immediate_stream(vec![1, 2, 3]), Negate, 5);

    assert_eq!(link.consumer.step(&mut link.provider, CONSUMER).0, Step::Progress);
    assert_eq!(link.provider.poll(PROVIDER).0, Pull::Item(-1));
    assert_eq!(link.provider.poll(PROVIDER), (Pull::NotReady, Some(PROVIDER)));
    assert_eq!(link.provider.poll(PROVIDER), (Pull::NotReady, None));
    assert_eq!(link.consumer.shutdown(&mut link.provider), Some(PROVIDER));
    assert_eq!(link.provider.poll(PROVIDER), (Pull::End, None));
}

#[test]
fn queue_link_keeps_order_under_backpressure() {
    let packets: Vec<i32> = (0..2000).collect();
    let mut link = QueueLink::new()
        .ingressor(immediate_stream(packets.clone()))
        .queue_capacity(10)
        .build_link();

    // The producer fills the queue and parks: it is blocked, not done.
    assert_eq!(link.consumer.poll(&mut link.provider, CONSUMER).0, Step::Blocked);
    let mut output = Vec::new();
    let mut parked = 1;
    loop {
        match link.provider.poll(PROVIDER).0 {
            Pull::Item(packet) => output.push(packet),
            Pull::End => break,
            Pull::NotReady => {
                if link.consumer.poll(&mut link.provider, CONSUMER).0 == Step::Blocked {
                    parked += 1;
                }
            }
        }
    }
    assert_eq!(output.len(), 2000);
    assert_eq!(output, packets);
    assert!(parked >= 1);
}

#[test]
fn queue_link_is_a_stream_of_its_input() {
    let empty = QueueLink::<ImmediateStream<i32>>::new();
    assert!(!empty.is_complete());
    let mut link = empty.ingressor(immediate_stream(vec![4, 5, 6])).build_link();
    assert_eq!(link.pull(), Pull::Item(4));
    assert_eq!(collect(&mut link), vec![5, 6]);
    assert_eq!(link.pull(), Pull::End);
}

#[test]
fn queue_link_passes_not_ready_on() {
    let mut link = QueueLink::new()
        .queue_capacity(1)
        .ingressor(PacketIntervalGenerator::new(1, vec![4]))
        .build_link();
    assert_eq!(link.pull(), Pull::NotReady);
    assert_eq!(link.pull(), Pull::Item(4));
    assert_eq!(link.pull(), Pull::End);
}
