//! The asynchronous element link: a consumer that pulls an input stream,
//! applies an element to each packet and fills a bounded queue, and a
//! provider that is the stream at the other end of that queue.

use crate::queue::in_valid_range;
use crate::queue_egressor::{drain_queue, egress_pulled, port_closed, QueueEgressor};
use crate::stream::{PacketStream, Pull, Step};
use crate::task_park::{
    die_transition, park_transition, unpark_transition, woken, TaskId, TaskParkState,
};
use vstd::prelude::*;

verus! {

/// A stateless transformation of each packet into exactly one packet.
pub trait AsyncElement {
    type Input;

    type Output;

    /// What the element makes of `packet`.
    spec fn apply(packet: Self::Input) -> Self::Output;

    /// Transforms `packet`.
    fn process(&mut self, packet: Self::Input) -> (out: Self::Output)
        ensures
            out == Self::apply(packet),
    ;
}

/// The packets that element `E` makes of the packets `input`, in order.
pub open spec fn transformed<E: AsyncElement>(input: Seq<E::Input>) -> Seq<E::Output> {
    Seq::new(input.len(), |i: int| E::apply(input[i]))
}

/// Both ends of an asynchronous element link.
pub struct AsyncElementLink<S, E: AsyncElement> {
    pub consumer: AsyncElementConsumer<S, E>,
    pub provider: AsyncElementProvider<E>,
}

impl<S: PacketStream, E: AsyncElement<Input = S::Item>> AsyncElementLink<S, E> {
    /// The two ends belong together and are valid. This is all that the
    /// turns of the two ends need; the link as one stream needs `inv`.
    pub open spec fn wf(&self) -> bool {
        connected(self.consumer, self.provider)
    }

    /// A link that applies `element` to the packets of `input_stream` and
    /// holds at most `queue_capacity` of the results at a time.
    pub fn new(input_stream: S, element: E, queue_capacity: usize) -> (link: Self)
        requires
            input_stream.inv(),
            in_valid_range(queue_capacity),
        ensures
            link.wf(),
            link.inv(),
            link.consumer.input() == input_stream,
            link.consumer.taken() == Seq::<S::Item>::empty(),
            !link.consumer.finished(),
            link.provider.port().queued() == Seq::<E::Output>::empty(),
            link.provider.port().delivered() == Seq::<E::Output>::empty(),
            link.provider.port().park() == TaskParkState::Empty,
            link.provider.port().capacity() == queue_capacity,
    {
        let provider = AsyncElementProvider::new(QueueEgressor::new(queue_capacity));
        let consumer = AsyncElementConsumer::new(input_stream, element);
        assert(provider.port().sent() =~= transformed::<E>(consumer.taken()));
        AsyncElementLink { consumer, provider }
    }

    /// Runs the link to its end: the consumer and the provider take turns
    /// until the input has ended and the queue is empty. Returns the packets
    /// that the provider gave in the course of this.
    ///
    /// Unless an end of the link had terminated before, the provider has
    /// then been sent what the element makes of each packet of the input, in
    /// the input's order, and the run ends whatever the input's stalls.
    pub fn run(&mut self) -> (results: Vec<E::Output>)
        requires
            old(self).wf(),
        ensures
            final(self).wf(),
            final(self).consumer.finished(),
            final(self).provider.port().queued().len() == 0,
            final(self).provider.port().delivered() == old(self).provider.port().delivered()
                + results@,
            !old(self).consumer.finished() && old(self).provider.port().park()
                != TaskParkState::Dead ==> {
                &&& final(self).consumer.input().pending().len() == 0
                &&& final(self).provider.port().sent() == old(self).provider.port().sent()
                    + transformed::<E>(old(self).consumer.input().pending())
            },
    {
        let mut results: Vec<E::Output> = Vec::new();
        let ghost delivered = self.provider.port().delivered();
        assert(delivered + results@ =~= delivered);
        assert(self.provider.port().sent() + transformed::<E>(self.consumer.input().pending())
            =~= old(self).provider.port().sent() + transformed::<E>(
            old(self).consumer.input().pending(),
        ));
        loop
            invariant
                self.wf(),
                self.provider.port().delivered() == old(self).provider.port().delivered()
                    + results@,
                self.consumer.finished() == old(self).consumer.finished(),
                !self.consumer.finished() ==> (self.provider.port().park() == TaskParkState::Dead)
                    == (old(self).provider.port().park() == TaskParkState::Dead),
                self.provider.port().sent() + transformed::<E>(self.consumer.input().pending())
                    == old(self).provider.port().sent() + transformed::<E>(
                    old(self).consumer.input().pending(),
                ),
            decreases self.consumer.input().pending().len() + self.consumer.input().stalls(),
        {
            let ghost got = results@;
            let ghost queued = self.provider.port().queued();
            drain_queue(&mut self.provider.from_consumer, 1, &mut results);
            proof {
                let delivered = old(self).provider.port().delivered();
                assert(delivered + (got + queued) =~= (delivered + got) + queued);
                self.provider.port().lemma_capacity();
            }
            let ghost before = *self;
            let (step, _) = self.consumer.step(&mut self.provider, 0);
            proof {
                let pending = before.consumer.input().pending();
                if step == Step::Progress {
                    assert(transformed::<E>(pending) =~= seq![E::apply(pending[0])]
                        + transformed::<E>(pending.skip(1)));
                    assert(self.provider.port().sent() =~= before.provider.port().sent().push(
                        E::apply(pending[0]),
                    ));
                }
                assert(self.provider.port().sent() + transformed::<E>(
                    self.consumer.input().pending(),
                ) =~= before.provider.port().sent() + transformed::<E>(pending));
            }
            match step {
                Step::Done => {
                    let ghost got = results@;
                    let ghost queued = self.provider.port().queued();
                    drain_queue(&mut self.provider.from_consumer, 1, &mut results);
                    proof {
                        let delivered = old(self).provider.port().delivered();
                        assert(delivered + (got + queued) =~= (delivered + got) + queued);
                        if !old(self).consumer.finished() && old(self).provider.port().park()
                            != TaskParkState::Dead {
                            assert(self.provider.port().sent() + transformed::<E>(
                                self.consumer.input().pending(),
                            ) =~= self.provider.port().sent());
                        }
                    }
                    return results;
                },
                _ => {},
            }
        }
    }
}

/// The link as one stream, for a consumer that drives both ends itself: a
/// pull takes from the queue and, where the queue is empty, first lets the
/// consumer end take a turn.
impl<S: PacketStream, E: AsyncElement<Input = S::Item>> PacketStream for AsyncElementLink<S, E> {
    type Item = E::Output;

    /// The two ends belong together, and the park is dead only once the
    /// consumer end has terminated.
    open spec fn inv(&self) -> bool {
        &&& connected(self.consumer, self.provider)
        &&& self.provider.port().park() == TaskParkState::Dead ==> self.consumer.finished()
    }

    /// What waits in the queue, followed by what the element makes of the
    /// packets that the input has yet to give.
    open spec fn pending(&self) -> Seq<E::Output> {
        if self.consumer.finished() {
            self.provider.port().queued()
        } else {
            self.provider.port().queued() + transformed::<E>(self.consumer.input().pending())
        }
    }

    open spec fn stalls(&self) -> nat {
        if self.consumer.finished() {
            0
        } else {
            self.consumer.input().stalls()
        }
    }

    fn pull(&mut self) -> (out: Pull<E::Output>) {
        loop
            invariant
                self.inv(),
                self.pending() == old(self).pending(),
                self.stalls() <= old(self).stalls(),
            decreases turns_before_answer(self.provider.port()),
        {
            let ghost before = *self;
            let (pulled, notify) = self.provider.poll(1);
            proof {
                lemma_taking_from_queue(before, pulled, notify, *self);
            }
            match pulled {
                Pull::Item(packet) => {
                    return Pull::Item(packet);
                },
                Pull::End => {
                    return Pull::End;
                },
                Pull::NotReady => {
                    let ghost mid = *self;
                    let (step, wake) = self.consumer.step(&mut self.provider, 0);
                    proof {
                        lemma_turn_on_empty_queue(mid, step, wake, *self);
                    }
                    match step {
                        Step::Blocked => {
                            return Pull::NotReady;
                        },
                        _ => {},
                    }
                },
            }
        }
    }
}

/// How many turns of the consumer end a pull of the link as one stream may
/// need before it can answer: none where a packet waits or the link has
/// terminated, and one otherwise.
pub open spec fn turns_before_answer<T>(port: QueueEgressor<T>) -> nat {
    if port.queued().len() > 0 || port.park() == TaskParkState::Dead {
        0
    } else {
        1
    }
}

/// What the element makes of a sequence starts with what it makes of the
/// first packet.
pub proof fn lemma_transformed_head<E: AsyncElement>(input: Seq<E::Input>)
    requires
        input.len() > 0,
    ensures
        transformed::<E>(input) == seq![E::apply(input[0])] + transformed::<E>(input.skip(1)),
{
    assert(transformed::<E>(input) =~= seq![E::apply(input[0])] + transformed::<E>(
        input.skip(1),
    ));
}

/// A pull at the provider end takes the link's next packet where one waits
/// in the queue, reports the end where the link has terminated with nothing
/// left, and otherwise leaves what the link has yet to give as it is.
proof fn lemma_taking_from_queue<S: PacketStream, E: AsyncElement<Input = S::Item>>(
    before: AsyncElementLink<S, E>,
    pull: Pull<E::Output>,
    wake: Option<TaskId>,
    after: AsyncElementLink<S, E>,
)
    requires
        before.inv(),
        after.consumer == before.consumer,
        after.provider.port().inv(),
        after.provider.port().sent() == before.provider.port().sent(),
        egress_pulled(before.provider.port(), 1, pull, wake, after.provider.port()),
    ensures
        after.inv(),
        after.stalls() == before.stalls(),
        match pull {
            Pull::Item(packet) => before.pending().len() > 0 && packet == before.pending()[0]
                && after.pending() == before.pending().skip(1),
            Pull::End => before.pending().len() == 0 && after.pending().len() == 0,
            Pull::NotReady => after.pending() == before.pending()
                && after.provider.port().queued().len() == 0 && after.provider.port().park()
                != TaskParkState::Dead,
        },
{
    let queued = before.provider.port().queued();
    let rest = transformed::<E>(before.consumer.input().pending());
    if queued.len() > 0 {
        assert(pull == Pull::Item(queued[0]));
        assert(after.provider.port().queued() == queued.skip(1));
        assert(queued.skip(1) + rest =~= (queued + rest).skip(1));
        assert((queued + rest)[0] == queued[0]);
    } else if before.provider.port().park() == TaskParkState::Dead {
        assert(pull == Pull::<E::Output>::End);
        assert(before.consumer.finished());
    } else {
        assert(pull == Pull::<E::Output>::NotReady);
    }
}

/// A turn of the consumer end on an empty queue of a live link keeps what
/// the link has yet to give: a packet moves from the input into the queue,
/// or the link terminates with nothing left, or the input has stalled.
proof fn lemma_turn_on_empty_queue<S: PacketStream, E: AsyncElement<Input = S::Item>>(
    before: AsyncElementLink<S, E>,
    step: Step,
    wake: Option<TaskId>,
    after: AsyncElementLink<S, E>,
)
    requires
        connected(before.consumer, before.provider),
        before.provider.port().queued().len() == 0,
        before.provider.port().park() != TaskParkState::Dead,
        connected(after.consumer, after.provider),
        consumer_stepped(
            before.consumer,
            before.provider.port(),
            0,
            step,
            wake,
            after.consumer,
            after.provider.port(),
        ),
    ensures
        after.inv(),
        after.pending() == before.pending(),
        after.stalls() <= before.stalls(),
        step == Step::Blocked ==> after.stalls() < before.stalls(),
        step != Step::Blocked ==> after.provider.port().queued().len() > 0
            || after.provider.port().park() == TaskParkState::Dead,
{
    let input = before.consumer.input().pending();
    before.provider.port().lemma_capacity();
    assert(!before.consumer.finished());
    assert(!before.provider.port().full());
    assert(before.pending() =~= transformed::<E>(input));
    match step {
        Step::Progress => {
            lemma_transformed_head::<E>(input);
            assert(before.provider.port().queued() =~= Seq::<E::Output>::empty());
            assert(after.provider.port().queued() =~= seq![E::apply(input[0])]);
        },
        Step::Done => {
            assert(transformed::<E>(input) =~= Seq::<E::Output>::empty());
            assert(after.provider.port().queued() =~= Seq::<E::Output>::empty());
        },
        Step::Blocked => {},
    }
}

/// Whether `provider` is the other end of `consumer`'s queue: it was sent
/// what the element makes of the packets taken so far, in their order, and
/// once the consumer has terminated the park is dead.
pub open spec fn connected<S: PacketStream, E: AsyncElement<Input = S::Item>>(
    consumer: AsyncElementConsumer<S, E>,
    provider: AsyncElementProvider<E>,
) -> bool {
    &&& consumer.input().inv()
    &&& provider.port().inv()
    &&& provider.port().sent() == transformed::<E>(consumer.taken())
    &&& consumer.finished() ==> provider.port().park() == TaskParkState::Dead
}

/// The runnable of an asynchronous element link: the producer end of its
/// queue.
pub struct AsyncElementConsumer<S, E: AsyncElement> {
    input_stream: S,
    element: E,
    finished: bool,
    taken: Ghost<Seq<E::Input>>,
}

impl<S: PacketStream, E: AsyncElement<Input = S::Item>> AsyncElementConsumer<S, E> {
    /// The input stream as it now stands.
    pub closed spec fn input(&self) -> S {
        self.input_stream
    }

    /// The packets taken from the input so far, in order.
    pub closed spec fn taken(&self) -> Seq<S::Item> {
        self.taken@
    }

    /// Whether the consumer has terminated.
    pub closed spec fn finished(&self) -> bool {
        self.finished
    }

    /// The runnable that applies `element` to the packets of `input_stream`.
    pub fn new(input_stream: S, element: E) -> (consumer: Self)
        ensures
            consumer.input() == input_stream,
            consumer.taken() == Seq::<S::Item>::empty(),
            !consumer.finished(),
    {
        AsyncElementConsumer { input_stream, element, finished: false, taken: Ghost(Seq::empty()) }
    }

    /// Tells whether the consumer has terminated.
    pub fn is_finished(&self) -> (finished: bool)
        ensures
            finished == self.finished(),
    {
        self.finished
    }

    /// One turn of the consumer on behalf of task `me`. Returns the outcome
    /// and the task to notify.
    ///
    /// Where the provider is dead the consumer terminates. Where the queue is
    /// full the task parks and nothing is taken from the input. Otherwise the
    /// input is pulled once: the element's result for a packet is sent and a
    /// wake-up raised; the end of the input kills the park; `NotReady`
    /// changes nothing.
    pub fn step(&mut self, to_provider: &mut AsyncElementProvider<E>, me: TaskId) -> (out: (
        Step,
        Option<TaskId>,
    ))
        requires
            connected(*old(self), *old(to_provider)),
        ensures
            connected(*final(self), *final(to_provider)),
            consumer_stepped(
                *old(self),
                old(to_provider).port(),
                me,
                out.0,
                out.1,
                *final(self),
                final(to_provider).port(),
            ),
    {
        if self.finished {
            return (Step::Done, None);
        }
        if to_provider.from_consumer.is_dead() {
            self.finished = true;
            return (Step::Done, None);
        }
        if to_provider.from_consumer.is_full() {
            let wake = to_provider.from_consumer.park_producer(me);
            return (Step::Blocked, wake);
        }
        match self.input_stream.pull() {
            Pull::NotReady => (Step::Blocked, None),
            Pull::End => {
                let wake = to_provider.from_consumer.close();
                self.finished = true;
                (Step::Done, wake)
            },
            Pull::Item(input_packet) => {
                let output_packet = self.element.process(input_packet);
                let wake = to_provider.from_consumer.send(output_packet);
                proof {
                    self.taken@ = self.taken@.push(input_packet);
                    assert(to_provider.port().sent() =~= old(to_provider).port().sent().push(
                        output_packet,
                    ));
                    assert(to_provider.port().sent() =~= transformed::<E>(self.taken()));
                }
                (Step::Progress, wake)
            },
        }
    }

    /// The consumer's turns for task `me`, one after the other, until it is
    /// blocked or done. Returns the outcome and the tasks to notify.
    ///
    /// Nothing is lost or made up: what was taken and what is still pending
    /// make up the same input as before, and the provider has not handed
    /// anything out. The consumer is blocked on the full queue, where it is
    /// parked or was told to come back, or on the input.
    pub fn poll(&mut self, to_provider: &mut AsyncElementProvider<E>, me: TaskId) -> (out: (
        Step,
        Vec<TaskId>,
    ))
        requires
            connected(*old(self), *old(to_provider)),
        ensures
            connected(*final(self), *final(to_provider)),
            out.0 != Step::Progress,
            final(self).taken() + final(self).input().pending() == old(self).taken()
                + old(self).input().pending(),
            old(self).taken().is_prefix_of(final(self).taken()),
            final(to_provider).port().delivered() == old(to_provider).port().delivered(),
            final(to_provider).port().capacity() == old(to_provider).port().capacity(),
            out.0 == Step::Done ==> final(self).finished() && (old(self).finished()
                || old(to_provider).port().park() == TaskParkState::Dead
                || final(self).input().pending().len() == 0),
            consumer_polled(
                *old(self),
                old(to_provider).port(),
                me,
                out.0,
                out.1@,
                *final(self),
                final(to_provider).port(),
            ),
            out.0 == Step::Blocked ==> !final(self).finished() && ((final(to_provider).port().full()
                && (final(to_provider).port().park() == TaskParkState::Parked(me)
                || out.1@.contains(me))) || final(self).input().stalls() < old(self).input().stalls()),
    {
        let mut wakes: Vec<TaskId> = Vec::new();
        proof {
            assert forall|o: Step, w: Seq<TaskId>, c: Self, p: QueueEgressor<E::Output>| #[trigger]
                consumer_polled(*self, to_provider.port(), me, o, w, c, p) implies consumer_polled(
                *old(self),
                old(to_provider).port(),
                me,
                o,
                wakes@ + w,
                c,
                p,
            ) by {
                assert(wakes@ + w =~= w);
            }
        }
        loop
            invariant
                connected(*self, *to_provider),
                forall|o: Step, w: Seq<TaskId>, c: Self, p: QueueEgressor<E::Output>| #[trigger]
                    consumer_polled(*self, to_provider.port(), me, o, w, c, p) ==> consumer_polled(
                        *old(self),
                        old(to_provider).port(),
                        me,
                        o,
                        wakes@ + w,
                        c,
                        p,
                    ),
                self.taken() + self.input().pending() == old(self).taken()
                    + old(self).input().pending(),
                old(self).taken().is_prefix_of(self.taken()),
                self.input().stalls() <= old(self).input().stalls(),
                self.finished() == old(self).finished(),
                to_provider.port().delivered() == old(to_provider).port().delivered(),
                to_provider.port().capacity() == old(to_provider).port().capacity(),
                !self.finished() ==> (to_provider.port().park() == TaskParkState::Dead)
                    == (old(to_provider).port().park() == TaskParkState::Dead),
            decreases self.input().pending().len(),
        {
            let ghost before = *self;
            let ghost port_before = to_provider.port();
            let ghost notified = wakes@;
            let (step, wake) = self.step(to_provider, me);
            match wake {
                Some(task) => {
                    wakes.push(task);
                    assert(wakes@[wakes@.len() - 1] == task);
                },
                None => {},
            }
            proof {
                assert(self.taken() + self.input().pending() =~= before.taken()
                    + before.input().pending());
                let added = woken(wake);
                let port = to_provider.port();
                assert(wakes@ =~= notified + added);
                assert(consumer_stepped(before, port_before, me, step, wake, *self, port));
                if step == Step::Progress {
                    assert forall|o: Step, w: Seq<TaskId>, c: Self, p: QueueEgressor<E::Output>|
                     #[trigger]
                        consumer_polled(*self, port, me, o, w, c, p) implies consumer_polled(
                        *old(self),
                        old(to_provider).port(),
                        me,
                        o,
                        wakes@ + w,
                        c,
                        p,
                    ) by {
                        let all = added + w;
                        assert(all.take(added.len() as int) =~= added);
                        assert(all.skip(added.len() as int) =~= w);
                        assert(consumer_polled(before, port_before, me, o, all, c, p));
                        assert(notified + all =~= wakes@ + w);
                    }
                } else {
                    assert(consumer_polled(before, port_before, me, step, added, *self, port));
                }
            }
            match step {
                Step::Progress => {},
                _ => {
                    return (step, wakes);
                },
            }
        }
    }

    /// Ends the consumer before its input has ended: the park dies, so that
    /// the provider sees the end once the queue is empty. Returns the task
    /// to release.
    pub fn shutdown(&mut self, to_provider: &mut AsyncElementProvider<E>) -> (wake: Option<TaskId>)
        requires
            connected(*old(self), *old(to_provider)),
        ensures
            connected(*final(self), *final(to_provider)),
            final(self).finished(),
            final(self).input() == old(self).input(),
            final(self).taken() == old(self).taken(),
            port_closed(old(to_provider).port(), final(to_provider).port()),
            wake == die_transition(old(to_provider).port().park()).1,
    {
        let wake = to_provider.from_consumer.close();
        self.finished = true;
        wake
    }
}

/// The relation between a consumer and its queue before the consumer, task
/// `me`, is polled, the outcome, the tasks to notify, and both after the
/// poll: the consumer takes its turns one after the other, as long as they
/// make progress, and the tasks that the turns name are notified in that
/// order.
pub open spec fn consumer_polled<S: PacketStream, E: AsyncElement<Input = S::Item>>(
    before: AsyncElementConsumer<S, E>,
    port_before: QueueEgressor<E::Output>,
    me: TaskId,
    out: Step,
    wakes: Seq<TaskId>,
    after: AsyncElementConsumer<S, E>,
    port_after: QueueEgressor<E::Output>,
) -> bool
    decreases before.input().pending().len(),
{
    exists|
        step: Step,
        wake: Option<TaskId>,
        mid: AsyncElementConsumer<S, E>,
        port_mid: QueueEgressor<E::Output>,
    |
        #[trigger] consumer_stepped(before, port_before, me, step, wake, mid, port_mid) && if step
            == Step::Progress {
            &&& woken(wake).len() <= wakes.len()
            &&& wakes.take(woken(wake).len() as int) == woken(wake)
            &&& mid.input().pending().len() < before.input().pending().len()
            &&& consumer_polled(
                mid,
                port_mid,
                me,
                out,
                wakes.skip(woken(wake).len() as int),
                after,
                port_after,
            )
        } else {
            &&& out == step
            &&& wakes == woken(wake)
            &&& after == mid
            &&& port_after == port_mid
        }
}

/// The relation between a consumer and its queue before one turn for task
/// `me`, the outcome, the task to notify, and both after the turn.
pub open spec fn consumer_stepped<S: PacketStream, E: AsyncElement<Input = S::Item>>(
    before: AsyncElementConsumer<S, E>,
    port_before: QueueEgressor<E::Output>,
    me: TaskId,
    step: Step,
    wake: Option<TaskId>,
    after: AsyncElementConsumer<S, E>,
    port_after: QueueEgressor<E::Output>,
) -> bool {
    let pending = before.input().pending();
    if before.finished() {
        &&& step == Step::Done
        &&& wake == None::<TaskId>
        &&& after == before
        &&& port_after == port_before
    } else if port_before.park() == TaskParkState::Dead {
        &&& step == Step::Done
        &&& wake == None::<TaskId>
        &&& after.finished()
        &&& after.input() == before.input()
        &&& after.taken() == before.taken()
        &&& port_after == port_before
    } else if port_before.full() {
        &&& step == Step::Blocked
        &&& after == before
        &&& port_after.queued() == port_before.queued()
        &&& port_after.delivered() == port_before.delivered()
        &&& port_after.capacity() == port_before.capacity()
        &&& (port_after.park(), wake) == park_transition(port_before.park(), me)
    } else {
        match step {
            Step::Blocked => {
                &&& after.input().pending() == pending
                &&& after.input().stalls() < before.input().stalls()
                &&& after.taken() == before.taken()
                &&& !after.finished()
                &&& port_after == port_before
                &&& wake == None::<TaskId>
            },
            Step::Done => {
                &&& pending.len() == 0
                &&& after.input().pending().len() == 0
                &&& after.taken() == before.taken()
                &&& after.finished()
                &&& port_closed(port_before, port_after)
                &&& wake == die_transition(port_before.park()).1
            },
            Step::Progress => {
                &&& pending.len() > 0
                &&& after.input().pending() == pending.skip(1)
                &&& after.input().stalls() <= before.input().stalls()
                &&& after.taken() == before.taken().push(pending[0])
                &&& !after.finished()
                &&& port_after.queued() == port_before.queued().push(E::apply(pending[0]))
                &&& port_after.delivered() == port_before.delivered()
                &&& port_after.capacity() == port_before.capacity()
                &&& (port_after.park(), wake) == unpark_transition(port_before.park())
            },
        }
    }
}

/// The egress stream of an asynchronous element link: the consumer end of
/// its queue.
pub struct AsyncElementProvider<E: AsyncElement> {
    from_consumer: QueueEgressor<E::Output>,
}

impl<E: AsyncElement> AsyncElementProvider<E> {
    /// The queue with its park.
    pub closed spec fn port(&self) -> QueueEgressor<E::Output> {
        self.from_consumer
    }

    /// The stream at the consumer end of `from_consumer`.
    pub fn new(from_consumer: QueueEgressor<E::Output>) -> (provider: Self)
        ensures
            provider.port() == from_consumer,
    {
        AsyncElementProvider { from_consumer }
    }

    /// Pulls the stream on behalf of task `me`. Returns the outcome and the
    /// task to notify.
    pub fn poll(&mut self, me: TaskId) -> (out: (Pull<E::Output>, Option<TaskId>))
        requires
            old(self).port().inv(),
        ensures
            final(self).port().inv(),
            final(self).port().sent() == old(self).port().sent(),
            egress_pulled(old(self).port(), me, out.0, out.1, final(self).port()),
    {
        self.from_consumer.pull(me)
    }

    /// Ends the provider: the park dies, so that the consumer, where it is
    /// parked, is released and terminates at its next turn. Returns the task
    /// to release.
    pub fn shutdown(&mut self) -> (wake: Option<TaskId>)
        ensures
            port_closed(old(self).port(), final(self).port()),
            wake == die_transition(old(self).port().park()).1,
    {
        self.from_consumer.close()
    }
}

} // verus!
