//! The links at the system boundary: one that fills a bounded queue from an
//! external channel, and one that sends a stream into an external channel.
//!
//! What an external channel gives or takes depends on its other end, which
//! runs elsewhere. Nothing is assumed of it: for every answer that the
//! channel can give, the functions below say what the link does with it.

use crate::queue::{in_valid_range, DEFAULT_QUEUE_CAPACITY};
use crate::queue_egressor::{egress_pulled, port_closed, QueueEgressor};
use crate::stream::{PacketStream, Pull, Step};
use crate::task_park::{
    die_transition, park_transition, unpark_transition, woken, TaskId, TaskParkState,
};
use vstd::prelude::*;

verus! {

/// The receiving end of a crossbeam channel. Nothing of its contents is
/// known here.
#[verifier::external_type_specification]
#[verifier::external_body]
#[verifier::reject_recursive_types(T)]
pub struct ExReceiver<T>(crossbeam::channel::Receiver<T>);

/// The sending end of a crossbeam channel. Nothing of its contents is known
/// here.
#[verifier::external_type_specification]
#[verifier::external_body]
#[verifier::reject_recursive_types(T)]
pub struct ExSender<T>(crossbeam::channel::Sender<T>);

/// What an attempt to receive from an external channel gave.
#[derive(Debug, PartialEq, Eq)]
pub enum Received<T> {
    /// A packet.
    Packet(T),
    /// Nothing now; the channel is still open.
    Empty,
    /// Nothing, and nothing will come: the channel is empty and all its
    /// senders are gone.
    Closed,
}

/// What an attempt to send into an external channel gave.
#[derive(Debug, PartialEq, Eq)]
pub enum Delivery<T> {
    /// The packet is in the channel.
    Sent,
    /// The channel is full; the packet is handed back.
    Full(T),
    /// All receivers of the channel are gone; the packet is handed back.
    Closed(T),
}

/// Whether `delivery` hands back `packet` where it hands back a packet.
pub open spec fn handed_back<T>(delivery: Delivery<T>, packet: T) -> bool {
    match delivery {
        Delivery::Sent => true,
        Delivery::Full(back) => back == packet,
        Delivery::Closed(back) => back == packet,
    }
}

/// Calls `Receiver::try_recv` of crossbeam's channel, which never blocks.
/// Nothing is claimed of the answer: which of the three comes depends on
/// what the senders of the channel have done.
#[verifier::external_body]
fn try_receive<T>(channel: &crossbeam::channel::Receiver<T>) -> (received: Received<T>) {
    match channel.try_recv() {
        Ok(packet) => Received::Packet(packet),
        Err(crossbeam::channel::TryRecvError::Empty) => Received::Empty,
        Err(crossbeam::channel::TryRecvError::Disconnected) => Received::Closed,
    }
}

/// Calls `Sender::try_send` of crossbeam's channel, which never blocks.
/// Which of the three answers comes depends on the receivers of the channel;
/// the one claim is that an error carries the very packet that was offered.
#[verifier::external_body]
fn try_deliver<T>(channel: &crossbeam::channel::Sender<T>, packet: T) -> (delivery: Delivery<T>)
    ensures
        handed_back(delivery, packet),
{
    match channel.try_send(packet) {
        Ok(()) => Delivery::Sent,
        Err(crossbeam::channel::TrySendError::Full(back)) => Delivery::Full(back),
        Err(crossbeam::channel::TrySendError::Disconnected(back)) => Delivery::Closed(back),
    }
}

/// The builder of an input channel link.
#[verifier::reject_recursive_types(T)]
pub struct InputChannelLink<T> {
    channel: Option<crossbeam::channel::Receiver<T>>,
    queue_capacity: usize,
}

impl<T> InputChannelLink<T> {
    #[verifier::type_invariant]
    spec fn admissible(self) -> bool {
        in_valid_range(self.queue_capacity)
    }

    /// Whether the builder was given its channel.
    pub closed spec fn has_channel(&self) -> bool {
        self.channel.is_some()
    }

    /// The capacity that the queue will have.
    pub closed spec fn capacity(&self) -> usize {
        self.queue_capacity
    }

    /// A builder without channel, for a queue of the default capacity.
    pub fn new() -> (link: Self)
        ensures
            !link.has_channel(),
            link.capacity() == DEFAULT_QUEUE_CAPACITY,
    {
        InputChannelLink { channel: None, queue_capacity: DEFAULT_QUEUE_CAPACITY }
    }

    /// Sets the external channel to read.
    pub fn channel(self, channel: crossbeam::channel::Receiver<T>) -> (link: Self)
        ensures
            link.has_channel(),
            link.capacity() == self.capacity(),
    {
        proof {
            use_type_invariant(&self);
        }
        InputChannelLink { channel: Some(channel), queue_capacity: self.queue_capacity }
    }

    /// Sets the capacity of the queue.
    pub fn queue_capacity(self, queue_capacity: usize) -> (link: Self)
        requires
            in_valid_range(queue_capacity),
        ensures
            link.has_channel() == self.has_channel(),
            link.capacity() == queue_capacity,
    {
        InputChannelLink { channel: self.channel, queue_capacity }
    }

    /// Tells whether the builder has what `build_link` needs: its channel.
    pub fn is_complete(&self) -> (complete: bool)
        ensures
            complete == self.has_channel(),
    {
        self.channel.is_some()
    }

    /// Builds the link: the empty queue of the chosen capacity and the
    /// runnable that fills it from the channel.
    pub fn build_link(self) -> (input: InputChannel<T>)
        requires
            self.has_channel(),
        ensures
            input.inv(),
            !input.finished(),
            input.egress().queued() == Seq::<T>::empty(),
            input.egress().delivered() == Seq::<T>::empty(),
            input.egress().park() == TaskParkState::Empty,
            input.egress().capacity() == self.capacity(),
    {
        proof {
            use_type_invariant(&self);
        }
        InputChannel {
            channel: self.channel.unwrap(),
            to_egressor: QueueEgressor::new(self.queue_capacity),
            finished: false,
        }
    }
}

/// The runnable of an input channel link together with its queue.
#[verifier::reject_recursive_types(T)]
pub struct InputChannel<T> {
    channel: crossbeam::channel::Receiver<T>,
    to_egressor: QueueEgressor<T>,
    finished: bool,
}

impl<T> InputChannel<T> {
    /// The queue with its park.
    pub closed spec fn egress(&self) -> QueueEgressor<T> {
        self.to_egressor
    }

    /// Whether the producer has terminated.
    pub closed spec fn finished(&self) -> bool {
        self.finished
    }

    /// The queue is valid; once the producer has terminated the park is dead.
    pub open spec fn inv(&self) -> bool {
        &&& self.egress().inv()
        &&& self.finished() ==> self.egress().park() == TaskParkState::Dead
    }

    /// Tells whether the producer has terminated.
    pub fn is_finished(&self) -> (finished: bool)
        ensures
            finished == self.finished(),
    {
        self.finished
    }

    /// What the producer does with what the channel gave: a packet is sent
    /// into the queue and a wake-up raised; on an empty channel the producer
    /// is blocked; the closure of the channel kills the park. Returns the
    /// outcome and the task to notify.
    pub fn accept(&mut self, received: Received<T>) -> (out: (Step, Option<TaskId>))
        requires
            old(self).inv(),
            !old(self).finished(),
            !old(self).egress().full(),
        ensures
            final(self).inv(),
            accepted(*old(self), received, out.0, out.1, *final(self)),
    {
        match received {
            Received::Packet(packet) => {
                let wake = self.to_egressor.send(packet);
                (Step::Progress, wake)
            },
            Received::Empty => (Step::Blocked, None),
            Received::Closed => {
                let wake = self.to_egressor.close();
                self.finished = true;
                (Step::Done, wake)
            },
        }
    }

    /// One turn of the producer on behalf of task `me`. Returns the outcome
    /// and the task to notify.
    ///
    /// Where the queue is full, the task parks and the channel is left
    /// alone. Otherwise the channel is asked once, and whatever it gives is
    /// dealt with as `accept` says.
    pub fn step(&mut self, me: TaskId) -> (out: (Step, Option<TaskId>))
        requires
            old(self).inv(),
        ensures
            final(self).inv(),
            input_stepped(*old(self), me, out.0, out.1, *final(self)),
    {
        if self.finished {
            return (Step::Done, None);
        }
        if self.to_egressor.is_full() {
            let wake = self.to_egressor.park_producer(me);
            return (Step::Blocked, wake);
        }
        let received = try_receive(&self.channel);
        let ghost given = received;
        let out = self.accept(received);
        assert(accepted(*old(self), given, out.0, out.1, *self));
        out
    }

    /// The producer's turns for task `me`, one after the other, until it is
    /// blocked or done. Returns the outcome and the tasks to notify.
    ///
    /// What was queued before is still at the front of the queue, and
    /// nothing was handed out. The producer is blocked on the full queue,
    /// where it is parked or was told to come back, or on the empty channel.
    pub fn poll(&mut self, me: TaskId) -> (out: (Step, Vec<TaskId>))
        requires
            old(self).inv(),
        ensures
            final(self).inv(),
            out.0 != Step::Progress,
            old(self).egress().queued().is_prefix_of(final(self).egress().queued()),
            final(self).egress().delivered() == old(self).egress().delivered(),
            final(self).egress().capacity() == old(self).egress().capacity(),
            out.0 == Step::Done ==> final(self).finished(),
            out.0 == Step::Blocked ==> !final(self).finished() && (!final(self).egress().full() || (
            final(self).egress().park() == TaskParkState::Parked(me) || out.1@.contains(me))),
            input_polled(*old(self), me, out.0, out.1@, *final(self)),
    {
        let mut wakes: Vec<TaskId> = Vec::new();
        proof {
            self.egress().lemma_capacity();
            assert forall|o: Step, w: Seq<TaskId>, a: Self| #[trigger]
                input_polled(*self, me, o, w, a) implies input_polled(
                *old(self),
                me,
                o,
                wakes@ + w,
                a,
            ) by {
                assert(wakes@ + w =~= w);
            }
        }
        loop
            invariant
                self.inv(),
                forall|o: Step, w: Seq<TaskId>, a: Self| #[trigger]
                    input_polled(*self, me, o, w, a) ==> input_polled(
                        *old(self),
                        me,
                        o,
                        wakes@ + w,
                        a,
                    ),
                old(self).egress().queued().is_prefix_of(self.egress().queued()),
                self.egress().delivered() == old(self).egress().delivered(),
                self.egress().capacity() == old(self).egress().capacity(),
                self.egress().queued().len() <= self.egress().capacity(),
            decreases self.egress().capacity() - self.egress().queued().len(),
        {
            let ghost before = *self;
            let ghost notified = wakes@;
            let (step, wake) = self.step(me);
            match wake {
                Some(task) => {
                    wakes.push(task);
                    assert(wakes@[wakes@.len() - 1] == task);
                },
                None => {},
            }
            proof {
                self.egress().lemma_capacity();
                before.egress().lemma_capacity();
                let added = woken(wake);
                assert(wakes@ =~= notified + added);
                if step == Step::Progress {
                    assert forall|o: Step, w: Seq<TaskId>, a: Self| #[trigger]
                        input_polled(*self, me, o, w, a) implies input_polled(
                        *old(self),
                        me,
                        o,
                        wakes@ + w,
                        a,
                    ) by {
                        let all = added + w;
                        assert(all.take(added.len() as int) =~= added);
                        assert(all.skip(added.len() as int) =~= w);
                        assert(input_polled(before, me, o, all, a));
                        assert(notified + all =~= wakes@ + w);
                    }
                } else {
                    assert(input_polled(before, me, step, added, *self));
                }
            }
            match step {
                Step::Progress => {},
                _ => {
                    return (step, wakes);
                },
            }
        }
    }

    /// The consumer end of the queue, pulled by task `me`. Returns the
    /// outcome and the task to notify.
    pub fn pull(&mut self, me: TaskId) -> (out: (Pull<T>, Option<TaskId>))
        requires
            old(self).inv(),
        ensures
            final(self).inv(),
            final(self).finished() == old(self).finished(),
            final(self).egress().sent() == old(self).egress().sent(),
            egress_pulled(old(self).egress(), me, out.0, out.1, final(self).egress()),
    {
        self.to_egressor.pull(me)
    }

    /// Ends the producer before the channel is closed: the park dies, so
    /// that the consumer sees the end once the queue is empty. Returns the
    /// task to release.
    pub fn shutdown(&mut self) -> (wake: Option<TaskId>)
        requires
            old(self).inv(),
        ensures
            final(self).inv(),
            final(self).finished(),
            port_closed(old(self).egress(), final(self).egress()),
            wake == die_transition(old(self).egress().park()).1,
    {
        let wake = self.to_egressor.close();
        self.finished = true;
        wake
    }
}

/// The relation between an input channel link before its producer deals
/// with what the channel gave, the outcome, the task to notify, and the
/// link after it.
pub open spec fn accepted<T>(
    before: InputChannel<T>,
    received: Received<T>,
    step: Step,
    wake: Option<TaskId>,
    after: InputChannel<T>,
) -> bool {
    match received {
        Received::Packet(packet) => {
            &&& step == Step::Progress
            &&& !after.finished()
            &&& after.egress().queued() == before.egress().queued().push(packet)
            &&& after.egress().delivered() == before.egress().delivered()
            &&& after.egress().capacity() == before.egress().capacity()
            &&& (after.egress().park(), wake) == unpark_transition(before.egress().park())
        },
        Received::Empty => {
            &&& step == Step::Blocked
            &&& wake == None::<TaskId>
            &&& !after.finished()
            &&& after.egress() == before.egress()
        },
        Received::Closed => {
            &&& step == Step::Done
            &&& after.finished()
            &&& port_closed(before.egress(), after.egress())
            &&& wake == die_transition(before.egress().park()).1
        },
    }
}

/// The relation between an input channel link before one turn of its
/// producer for task `me`, the outcome, the task to notify, and the link
/// after the turn, whatever the channel gave.
pub open spec fn input_stepped<T>(
    before: InputChannel<T>,
    me: TaskId,
    step: Step,
    wake: Option<TaskId>,
    after: InputChannel<T>,
) -> bool {
    if before.finished() {
        &&& step == Step::Done
        &&& wake == None::<TaskId>
        &&& after.finished()
        &&& after.egress() == before.egress()
    } else if before.egress().full() {
        &&& step == Step::Blocked
        &&& !after.finished()
        &&& after.egress().queued() == before.egress().queued()
        &&& after.egress().delivered() == before.egress().delivered()
        &&& after.egress().capacity() == before.egress().capacity()
        &&& (after.egress().park(), wake) == park_transition(before.egress().park(), me)
    } else {
        exists|received: Received<T>| accepted(before, received, step, wake, after)
    }
}

/// The room that is left in the queue of an input channel link.
pub open spec fn room<T>(input: InputChannel<T>) -> int {
    input.egress().capacity() - input.egress().queued().len()
}

/// The relation between an input channel link before its producer, task
/// `me`, is polled, the outcome, the tasks to notify, and the link after the
/// poll: the producer takes its turns one after the other, as long as they
/// make progress, and the tasks that the turns name are notified in that
/// order.
pub open spec fn input_polled<T>(
    before: InputChannel<T>,
    me: TaskId,
    out: Step,
    wakes: Seq<TaskId>,
    after: InputChannel<T>,
) -> bool
    decreases room(before),
{
    exists|step: Step, wake: Option<TaskId>, mid: InputChannel<T>|
        #[trigger] input_stepped(before, me, step, wake, mid) && if step == Step::Progress {
            &&& woken(wake).len() <= wakes.len()
            &&& wakes.take(woken(wake).len() as int) == woken(wake)
            &&& 0 <= room(mid) < room(before)
            &&& input_polled(mid, me, out, wakes.skip(woken(wake).len() as int), after)
        } else {
            &&& out == step
            &&& wakes == woken(wake)
            &&& after == mid
        }
}

/// What the producer of an output channel link makes of an attempt to send:
/// the outcome of its turn and the packet that it holds for its next turn.
pub open spec fn settlement<T>(delivery: Delivery<T>) -> (Step, Option<T>) {
    match delivery {
        Delivery::Sent => (Step::Progress, None),
        Delivery::Full(back) => (Step::Blocked, Some(back)),
        Delivery::Closed(_) => (Step::Done, None),
    }
}

/// Decides what follows an attempt to send: a packet that was sent is
/// progress; a full channel blocks the producer, which holds the packet; a
/// channel without receivers ends the producer, and the packet is dropped.
pub fn settled<T>(delivery: Delivery<T>) -> (out: (Step, Option<T>))
    ensures
        out == settlement(delivery),
{
    match delivery {
        Delivery::Sent => (Step::Progress, None),
        Delivery::Full(back) => (Step::Blocked, Some(back)),
        Delivery::Closed(_) => (Step::Done, None),
    }
}

/// The builder of an output channel link.
#[verifier::reject_recursive_types(S)]
pub struct OutputChannelLink<S: PacketStream> {
    in_stream: Option<S>,
    channel: Option<crossbeam::channel::Sender<S::Item>>,
}

impl<S: PacketStream> OutputChannelLink<S> {
    /// The input stream that the builder was given, if any.
    pub closed spec fn ingress(&self) -> Option<S> {
        self.in_stream
    }

    /// Whether the builder was given its channel.
    pub closed spec fn has_channel(&self) -> bool {
        self.channel.is_some()
    }

    /// A builder without input and without channel.
    pub fn new() -> (link: Self)
        ensures
            link.ingress().is_none(),
            !link.has_channel(),
    {
        OutputChannelLink { in_stream: None, channel: None }
    }

    /// Sets the input stream.
    pub fn ingressor(self, in_stream: S) -> (link: Self)
        ensures
            link.ingress() == Some(in_stream),
            link.has_channel() == self.has_channel(),
    {
        OutputChannelLink { in_stream: Some(in_stream), channel: self.channel }
    }

    /// Sets the external channel to fill.
    pub fn channel(self, channel: crossbeam::channel::Sender<S::Item>) -> (link: Self)
        ensures
            link.ingress() == self.ingress(),
            link.has_channel(),
    {
        OutputChannelLink { in_stream: self.in_stream, channel: Some(channel) }
    }

    /// Tells whether the builder has what `build_link` needs: an input
    /// stream and its channel.
    pub fn is_complete(&self) -> (complete: bool)
        ensures
            complete == (self.ingress().is_some() && self.has_channel()),
    {
        self.in_stream.is_some() && self.channel.is_some()
    }

    /// Builds the link: its one runnable. It has no egress stream.
    pub fn build_link(self) -> (output: OutputChannel<S>)
        requires
            self.ingress().is_some(),
            self.has_channel(),
            self.ingress().unwrap().inv(),
        ensures
            output.inv(),
            !output.finished(),
            output.input() == self.ingress().unwrap(),
            output.held().is_none(),
            output.delivered() == Seq::<S::Item>::empty(),
    {
        OutputChannel {
            in_stream: self.in_stream.unwrap(),
            channel: self.channel.unwrap(),
            held: None,
            finished: false,
            delivered: Ghost(Seq::empty()),
        }
    }
}

/// The runnable of an output channel link. The channel is closed when the
/// runnable is dropped.
#[verifier::reject_recursive_types(S)]
pub struct OutputChannel<S: PacketStream> {
    in_stream: S,
    channel: crossbeam::channel::Sender<S::Item>,
    held: Option<S::Item>,
    finished: bool,
    delivered: Ghost<Seq<S::Item>>,
}

impl<S: PacketStream> OutputChannel<S> {
    /// The input stream as it now stands.
    pub closed spec fn input(&self) -> S {
        self.in_stream
    }

    /// The packet that was taken from the input and waits for room in the
    /// channel, if there is one.
    pub closed spec fn held(&self) -> Option<S::Item> {
        self.held
    }

    /// The packets that were sent into the channel so far, in order.
    pub closed spec fn delivered(&self) -> Seq<S::Item> {
        self.delivered@
    }

    /// Whether the runnable has terminated.
    pub closed spec fn finished(&self) -> bool {
        self.finished
    }

    /// The packets that are still to be sent: the one held, if any, and what
    /// the input has yet to give.
    pub open spec fn unsent(&self) -> Seq<S::Item> {
        match self.held() {
            Some(packet) => seq![packet] + self.input().pending(),
            None => self.input().pending(),
        }
    }

    /// The input stream is valid.
    pub open spec fn inv(&self) -> bool {
        self.input().inv()
    }

    /// Tells whether the runnable has terminated.
    pub fn is_finished(&self) -> (finished: bool)
        ensures
            finished == self.finished(),
    {
        self.finished
    }

    /// One turn of the runnable.
    ///
    /// The packet at hand is the one held from an earlier turn or else the
    /// next of the input. It is offered to the channel once: sent, it is
    /// progress; on a full channel it is held and the runnable is blocked;
    /// on a channel without receivers it is dropped and the runnable ends.
    /// The end of the input ends the runnable; `NotReady` changes nothing.
    pub fn step(&mut self) -> (step: Step)
        requires
            old(self).inv(),
        ensures
            final(self).inv(),
            output_stepped(*old(self), step, *final(self)),
    {
        if self.finished {
            return Step::Done;
        }
        let at_hand = self.held.take();
        let packet = match at_hand {
            Some(packet) => packet,
            None => {
                match self.in_stream.pull() {
                    Pull::NotReady => {
                        return Step::Blocked;
                    },
                    Pull::End => {
                        self.finished = true;
                        return Step::Done;
                    },
                    Pull::Item(packet) => packet,
                }
            },
        };
        let ghost offered = packet;
        let delivery = try_deliver(&self.channel, packet);
        let (step, held) = settled(delivery);
        self.held = held;
        match step {
            Step::Progress => {
                proof {
                    self.delivered@ = self.delivered@.push(offered);
                }
            },
            Step::Done => {
                self.finished = true;
            },
            Step::Blocked => {
                proof {
                    if old(self).held().is_none() {
                        assert(seq![offered] + self.input().pending() =~= old(self).input().pending());
                    }
                }
            },
        }
        proof {
            if old(self).held().is_some() {
                assert((seq![offered] + self.input().pending()).skip(1)
                    =~= self.input().pending());
            }
        }
        step
    }

    /// The runnable's turns, one after the other, until it is blocked or
    /// done.
    ///
    /// What was sent and what is still to be sent make up the same packets
    /// as before, unless the channel has lost its receivers: then the one
    /// packet that was offered last is dropped.
    pub fn poll(&mut self) -> (step: Step)
        requires
            old(self).inv(),
        ensures
            final(self).inv(),
            step != Step::Progress,
            old(self).delivered().is_prefix_of(final(self).delivered()),
            step == Step::Blocked ==> !final(self).finished() && final(self).delivered()
                + final(self).unsent() == old(self).delivered() + old(self).unsent(),
            step == Step::Done ==> final(self).finished(),
            step == Step::Done && !old(self).finished() ==> final(self).delivered()
                + final(self).unsent() == old(self).delivered() + old(self).unsent()
                || exists|dropped: S::Item|
                final(self).delivered().push(dropped) + final(self).unsent()
                    == old(self).delivered() + old(self).unsent(),
            output_polled(*old(self), step, *final(self)),
    {
        loop
            invariant
                self.inv(),
                forall|o: Step, a: Self| #[trigger]
                    output_polled(*self, o, a) ==> output_polled(*old(self), o, a),
                old(self).delivered().is_prefix_of(self.delivered()),
                self.delivered() + self.unsent() == old(self).delivered() + old(self).unsent(),
                self.finished() == old(self).finished(),
            decreases self.unsent().len(),
        {
            let ghost before = *self;
            let step = self.step();
            proof {
                if step != Step::Done || before.finished() || before.unsent().len() == 0 {
                    assert(self.delivered() + self.unsent() =~= before.delivered()
                        + before.unsent());
                } else {
                    let dropped = before.unsent()[0];
                    assert(self.delivered().push(dropped) + self.unsent() =~= before.delivered()
                        + before.unsent());
                }
                assert(output_stepped(before, step, *self));
                if step == Step::Progress {
                    assert forall|o: Step, a: Self| #[trigger]
                        output_polled(*self, o, a) implies output_polled(*old(self), o, a) by {
                        assert(output_polled(before, o, a));
                    }
                } else {
                    assert(output_polled(before, step, *self));
                }
            }
            match step {
                Step::Progress => {},
                _ => {
                    return step;
                },
            }
        }
    }
}

/// The relation between an output channel link before its runnable is
/// polled, the outcome, and the link after the poll: the runnable takes its
/// turns one after the other, as long as they make progress.
pub open spec fn output_polled<S: PacketStream>(
    before: OutputChannel<S>,
    out: Step,
    after: OutputChannel<S>,
) -> bool
    decreases before.unsent().len(),
{
    exists|step: Step, mid: OutputChannel<S>|
        #[trigger] output_stepped(before, step, mid) && if step == Step::Progress {
            &&& mid.unsent().len() < before.unsent().len()
            &&& output_polled(mid, out, after)
        } else {
            &&& out == step
            &&& after == mid
        }
}

/// The relation between an output channel link before one turn of its
/// runnable, the outcome, and the link after the turn, whatever the channel
/// answered.
pub open spec fn output_stepped<S: PacketStream>(
    before: OutputChannel<S>,
    step: Step,
    after: OutputChannel<S>,
) -> bool {
    let unsent = before.unsent();
    if before.finished() {
        &&& step == Step::Done
        &&& after == before
    } else if before.held().is_none() && step == Step::Blocked && after.held().is_none() {
        // The input was not ready.
        &&& !after.finished()
        &&& after.input().pending() == before.input().pending()
        &&& after.input().stalls() < before.input().stalls()
        &&& after.delivered() == before.delivered()
    } else if unsent.len() == 0 {
        // The input has ended.
        &&& step == Step::Done
        &&& after.finished()
        &&& after.held().is_none()
        &&& after.input().pending().len() == 0
        &&& after.delivered() == before.delivered()
    } else {
        // The packet at hand was offered to the channel.
        &&& before.held().is_some() ==> after.input() == before.input()
        &&& before.held().is_none() ==> after.input().pending() == before.input().pending().skip(1)
            && after.input().stalls() <= before.input().stalls()
        &&& match step {
            Step::Progress => {
                &&& !after.finished()
                &&& after.held().is_none()
                &&& after.delivered() == before.delivered().push(unsent[0])
            },
            Step::Blocked => {
                &&& !after.finished()
                &&& after.held() == Some(unsent[0])
                &&& after.delivered() == before.delivered()
            },
            Step::Done => {
                &&& after.finished()
                &&& after.held().is_none()
                &&& after.delivered() == before.delivered()
            },
        }
    }
}

} // verus!
