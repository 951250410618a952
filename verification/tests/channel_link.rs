use crossbeam::channel::{bounded, unbounded, TryRecvError};
use route_rs_runtime::channel_link::{
    settled, Delivery, InputChannel, InputChannelLink, OutputChannelLink, Received,
};
use route_rs_runtime::stream::{immediate_stream, ImmediateStream, PacketIntervalGenerator, Pull, Step};

const PRODUCER: usize = 0;
const CONSUMER: usize = 1;

fn drain(input: &mut InputChannel<i32>) -> Vec<i32> {
    let mut packets = Vec::new();
    while let Pull::Item(packet) = input.pull(CONSUMER).0 {
        packets.push(packet);
    }
    packets
}

#[test]
fn input_channel_delivers_what_the_channel_holds_and_ends_when_it_is_closed() {
    let packets = vec![0, 1, 2, 420, 1337, 3, 4, 5, 6, 7, 8, 9];
    let (sender, receiver) = unbounded();
    for packet in packets.iter() {
        sender.send(*packet).unwrap();
    }
    let mut input = InputChannelLink::new().channel(receiver).queue_capacity(5).build_link();

    let mut output = Vec::new();
    // The queue takes five packets at a time; the channel is still open.
    assert_eq!(input.poll(PRODUCER).0, Step::Blocked);
    output.append(&mut drain(&mut input));
    assert_eq!(output, vec![0, 1, 2, 420, 1337]);
    assert_eq!(input.poll(PRODUCER).0, Step::Blocked);
    output.append(&mut drain(&mut input));
    assert_eq!(input.poll(PRODUCER).0, Step::Blocked);
    output.append(&mut drain(&mut input));
    assert_eq!(output, packets);
    assert_eq!(input.poll(PRODUCER).0, Step::Blocked);
    assert!(!input.is_finished());

    // The consumer parks on the empty queue; the closure of the channel
    // releases it.
    assert_eq!(input.pull(CONSUMER), (Pull::NotReady, None));
    drop(sender);
    assert_eq!(input.poll(PRODUCER), (Step::Done, vec![CONSUMER]));
    assert!(input.is_finished());
    assert_eq!(input.pull(CONSUMER), (Pull::End, None));
    assert_eq!(input.step(PRODUCER), (Step::Done, None));
}

#[test]
fn input_channel_takes_one_packet_per_turn() {
    let (sender, receiver) = bounded(4);
    let mut input = InputChannelLink::new().channel(receiver).build_link();

    assert_eq!(input.step(PRODUCER), (Step::Blocked, None));
    sender.send(7).unwrap();
    sender.send(8).unwrap();
    assert_eq!(input.pull(CONSUMER), (Pull::NotReady, None));
    assert_eq!(input.step(PRODUCER), (Step::Progress, Some(CONSUMER)));
    assert_eq!(input.pull(CONSUMER), (Pull::Item(7), None));
    assert_eq!(input.step(PRODUCER), (Step::Progress, None));
    assert_eq!(input.step(PRODUCER), (Step::Blocked, None));
    assert_eq!(input.pull(CONSUMER), (Pull::Item(8), None));
}

#[test]
fn input_channel_parks_on_its_full_queue() {
    let (sender, receiver) = unbounded();
    sender.send(1).unwrap();
    sender.send(2).unwrap();
    let mut input = InputChannelLink::new().channel(receiver).queue_capacity(1).build_link();

    assert_eq!(input.step(PRODUCER), (Step::Progress, None));
    assert_eq!(input.step(PRODUCER), (Step::Blocked, Some(PRODUCER)));
    assert_eq!(input.step(PRODUCER), (Step::Blocked, None));
    assert_eq!(input.pull(CONSUMER), (Pull::Item(1), Some(PRODUCER)));
    assert_eq!(input.step(PRODUCER), (Step::Progress, None));
    assert_eq!(input.shutdown(), None);
    assert_eq!(input.pull(CONSUMER), (Pull::Item(2), None));
    assert_eq!(input.pull(CONSUMER), (Pull::End, None));
    drop(sender);
}

#[test]
fn input_channel_accepts_each_answer_of_the_channel() {
    let (_sender, receiver) = bounded::<i32>(1);
    let mut input = InputChannelLink::new().channel(receiver).build_link();

    assert_eq!(input.accept(Received::Empty), (Step::Blocked, None));
    assert_eq!(input.accept(Received::Packet(3)), (Step::Progress, None));
    assert_eq!(input.pull(CONSUMER).0, Pull::Item(3));
    assert_eq!(input.pull(CONSUMER), (Pull::NotReady, Some(CONSUMER)));
    assert_eq!(input.pull(CONSUMER), (Pull::NotReady, None));
    assert_eq!(input.accept(Received::Closed), (Step::Done, Some(CONSUMER)));
    assert!(input.is_finished());
}

#[test]
fn input_channel_link_is_complete_only_with_its_channel() {
    let (_sender, receiver) = bounded::<i32>(1);
    let empty = InputChannelLink::new();
    assert!(!empty.is_complete());
    assert!(empty.channel(receiver).is_complete());
}

#[test]
fn output_channel_sends_its_stream_in_order() {
    let packets = vec![0, 1, 2, 420, 1337, 3, 4, 5, 6, 7, 8, 9];
    let (sender, receiver) = unbounded();
    let mut output = OutputChannelLink::new()
        .ingressor(immediate_stream(packets.clone()))
        .channel(sender)
        .build_link();

    assert_eq!(output.poll(), Step::Done);
    assert!(output.is_finished());
    drop(output);
    let received: Vec<i32> = receiver.iter().collect();
    assert_eq!(received, packets);
}

#[test]
fn output_channel_holds_the_packet_while_the_channel_is_full() {
    let (sender, receiver) = bounded(1);
    let mut output = OutputChannelLink::new()
        .ingressor(immediate_stream(vec![5, 6, 7]))
        .channel(sender)
        .build_link();

    assert_eq!(output.step(), Step::Progress);
    assert_eq!(output.step(), Step::Blocked);
    assert_eq!(output.step(), Step::Blocked);
    assert_eq!(receiver.try_recv(), Ok(5));
    // The held packet is the one that is sent next: none is lost or sent twice.
    assert_eq!(output.step(), Step::Progress);
    assert_eq!(output.poll(), Step::Blocked);
    assert_eq!(receiver.try_recv(), Ok(6));
    assert_eq!(receiver.try_recv(), Err(TryRecvError::Empty));
    assert_eq!(output.poll(), Step::Done);
    assert_eq!(receiver.try_recv(), Ok(7));
    assert_eq!(receiver.try_recv(), Err(TryRecvError::Empty));
    drop(output);
    assert_eq!(receiver.try_recv(), Err(TryRecvError::Disconnected));
}

#[test]
fn output_channel_waits_for_its_input() {
    let (sender, receiver) = unbounded();
    let mut output = OutputChannelLink::new()
        .ingressor(PacketIntervalGenerator::new(1, vec![9]))
        .channel(sender)
        .build_link();

    assert_eq!(output.poll(), Step::Blocked);
    assert_eq!(receiver.try_recv(), Err(TryRecvError::Empty));
    assert_eq!(output.poll(), Step::Done);
    assert_eq!(receiver.try_recv(), Ok(9));
}

#[test]
fn output_channel_ends_when_the_receivers_are_gone() {
    let (sender, receiver) = bounded(1);
    let mut output = OutputChannelLink::new()
        .ingressor(immediate_stream(vec![5, 6, 7]))
        .channel(sender)
        .build_link();

    assert_eq!(output.step(), Step::Progress);
    drop(receiver);
    assert_eq!(output.step(), Step::Done);
    assert!(output.is_finished());
    assert_eq!(output.poll(), Step::Done);
}

#[test]
fn output_channel_link_is_complete_only_with_stream_and_channel() {
    let (sender, _receiver) = bounded::<i32>(1);
    let empty = OutputChannelLink::<ImmediateStream<i32>>::new();
    assert!(!empty.is_complete());
    let half = empty.channel(sender);
    assert!(!half.is_complete());
    assert!(half.ingressor(immediate_stream(vec![])).is_complete());
}

#[test]
fn settled_decides_for_each_answer_of_the_channel() {
    assert_eq!(settled(Delivery::<i32>::Sent), (Step::Progress, None));
    assert_eq!(settled(Delivery::Full(4)), (Step::Blocked, Some(4)));
    assert_eq!(settled(Delivery::Closed(4)), (Step::Done, None));
}

#[test]
fn channel_in_to_channel_out() {
    let packets = vec![0, 1, 2, 420, 1337, 3, 4, 5, 6, 7, 8, 9];
    let (to_input, from_outside) = unbounded();
    let (to_outside, from_output) = unbounded();
    for packet in packets.iter() {
        to_input.send(*packet).unwrap();
    }
    drop(to_input);

    let mut input = InputChannelLink::new().channel(from_outside).build_link();
    let mut through = Vec::new();
    while input.poll(PRODUCER).0 != Step::Done {
        through.append(&mut drain(&mut input));
    }
    through.append(&mut drain(&mut input));

    let mut output = OutputChannelLink::new()
        .ingressor(immediate_stream(through))
        .channel(to_outside)
        .build_link();
    assert_eq!(output.poll(), Step::Done);
    drop(output);

    let received: Vec<i32> = from_output.iter().collect();
    assert_eq!(received, packets);
}
