//! The classify link: every packet of one input goes to exactly one of N
//! ports, the one that the dispatcher names for the packet's class.

use crate::queue::{in_valid_range, DEFAULT_QUEUE_CAPACITY, MAX_QUEUE_CAPACITY};
use crate::queue_egressor::{
    blocked_on_full, close_all, collected, drain_all, egress_pulled, parked_tasks, port_closed,
    port_drained, QueueEgressor,
};
use crate::stream::{PacketStream, Pull, Step};
use crate::task_park::{park_transition, unpark_transition, woken, TaskId, TaskParkState};
use vstd::multiset::Multiset;
use vstd::prelude::*;

verus! {

/// A pure, total function from a packet to its class.
pub trait Classifier {
    type Packet;

    type Class;

    /// The class of `packet`.
    spec fn class_of(packet: Self::Packet) -> Self::Class;

    /// Computes the class of `packet`.
    fn classify(&self, packet: &Self::Packet) -> (class: Self::Class)
        ensures
            class == Self::class_of(*packet),
    ;
}

/// A pure, total function from a class to the port that serves it.
pub trait Dispatcher {
    type Class;

    /// The port that serves `class`.
    spec fn port_of(class: Self::Class) -> usize;

    /// Computes the port that serves `class`.
    fn dispatch(&self, class: Self::Class) -> (port: usize)
        ensures
            port == Self::port_of(class),
    ;
}

/// The classifier that tells even numbers from odd ones: the class of a
/// number is whether it is even.
pub struct Evenness;

impl Classifier for Evenness {
    type Packet = i32;

    type Class = bool;

    open spec fn class_of(packet: i32) -> bool {
        packet % 2 == 0
    }

    fn classify(&self, packet: &i32) -> (class: bool) {
        *packet % 2 == 0
    }
}

/// The dispatcher that serves one class on port 0 and the other on port 1:
/// `true` goes to port 0.
pub struct TrueFirst;

impl Dispatcher for TrueFirst {
    type Class = bool;

    open spec fn port_of(class: bool) -> usize {
        if class {
            0
        } else {
            1
        }
    }

    fn dispatch(&self, class: bool) -> (port: usize) {
        if class {
            0
        } else {
            1
        }
    }
}

/// The port to which classifier `C` and dispatcher `D` send `packet`.
pub open spec fn port_for<C: Classifier, D: Dispatcher<Class = C::Class>>(packet: C::Packet) -> int {
    D::port_of(C::class_of(packet)) as int
}

/// The packets of `input` that classifier `C` and dispatcher `D` send to
/// port `port`, in the order of `input`.
pub open spec fn routed_to<C: Classifier, D: Dispatcher<Class = C::Class>>(
    input: Seq<C::Packet>,
    port: int,
) -> Seq<C::Packet>
    decreases input.len(),
{
    if input.len() == 0 {
        Seq::empty()
    } else {
        let rest = routed_to::<C, D>(input.drop_last(), port);
        if port_for::<C, D>(input.last()) == port {
            rest.push(input.last())
        } else {
            rest
        }
    }
}

/// One more packet of the input goes to its own port and to no other.
pub proof fn lemma_routed_push<C: Classifier, D: Dispatcher<Class = C::Class>>(
    input: Seq<C::Packet>,
    packet: C::Packet,
    port: int,
)
    ensures
        routed_to::<C, D>(input.push(packet), port) == if port_for::<C, D>(packet) == port {
            routed_to::<C, D>(input, port).push(packet)
        } else {
            routed_to::<C, D>(input, port)
        },
{
    assert(input.push(packet).drop_last() =~= input);
}

/// What the first `ports` ports receive of `input`, taken together as a
/// multiset.
pub open spec fn routed_union<C: Classifier, D: Dispatcher<Class = C::Class>>(
    input: Seq<C::Packet>,
    ports: nat,
) -> Multiset<C::Packet>
    decreases ports,
{
    if ports == 0 {
        Multiset::empty()
    } else {
        routed_union::<C, D>(input, (ports - 1) as nat).add(
            routed_to::<C, D>(input, ports - 1).to_multiset(),
        )
    }
}

/// One more packet of the input adds itself, once, to what the ports
/// receive together, where its port is one of them.
pub proof fn lemma_union_push<C: Classifier, D: Dispatcher<Class = C::Class>>(
    input: Seq<C::Packet>,
    packet: C::Packet,
    ports: nat,
)
    ensures
        routed_union::<C, D>(input.push(packet), ports) == if port_for::<C, D>(packet) < ports {
            routed_union::<C, D>(input, ports).insert(packet)
        } else {
            routed_union::<C, D>(input, ports)
        },
    decreases ports,
{
    broadcast use vstd::multiset::group_multiset_axioms;
    broadcast use vstd::seq_lib::to_multiset_build;

    if ports > 0 {
        lemma_union_push::<C, D>(input, packet, (ports - 1) as nat);
        lemma_routed_push::<C, D>(input, packet, ports - 1);
        let before = routed_union::<C, D>(input, ports);
        let after = routed_union::<C, D>(input.push(packet), ports);
        if port_for::<C, D>(packet) < ports {
            assert(after =~= before.insert(packet));
        } else {
            assert(after =~= before);
        }
    }
}

/// The ports partition the input: where every packet's port is one of the
/// `ports` ports, what the ports receive, taken together, is the input as a
/// multiset. Each packet is thus received by exactly one port.
pub proof fn lemma_routed_partition<C: Classifier, D: Dispatcher<Class = C::Class>>(
    input: Seq<C::Packet>,
    ports: nat,
)
    requires
        forall|i: int| 0 <= i < input.len() ==> port_for::<C, D>(#[trigger] input[i]) < ports,
    ensures
        routed_union::<C, D>(input, ports) == input.to_multiset(),
    decreases input.len(),
{
    broadcast use vstd::multiset::group_multiset_axioms;
    broadcast use vstd::seq_lib::to_multiset_build;

    if input.len() > 0 {
        let rest = input.drop_last();
        let last = input.last();
        assert(rest.push(last) =~= input);
        assert forall|i: int| 0 <= i < rest.len() implies port_for::<C, D>(#[trigger] rest[i])
            < ports by {
            assert(rest[i] == input[i]);
        }
        lemma_routed_partition::<C, D>(rest, ports);
        lemma_union_push::<C, D>(rest, last, ports);
        assert(port_for::<C, D>(input[input.len() - 1]) < ports);
    } else {
        lemma_union_empty::<C, D>(ports);
        assert(input =~= Seq::<C::Packet>::empty());
        lemma_empty_multiset::<C::Packet>();
    }
}

/// The empty sequence holds nothing.
proof fn lemma_empty_multiset<T>()
    ensures
        Seq::<T>::empty().to_multiset() == Multiset::<T>::empty(),
{
    Seq::<T>::empty().to_multiset_ensures();
    vstd::multiset::lemma_multiset_empty_len(Seq::<T>::empty().to_multiset());
}

/// Of no input the ports receive nothing.
pub proof fn lemma_union_empty<C: Classifier, D: Dispatcher<Class = C::Class>>(ports: nat)
    ensures
        routed_union::<C, D>(Seq::empty(), ports) == Multiset::<C::Packet>::empty(),
    decreases ports,
{
    broadcast use vstd::multiset::group_multiset_axioms;

    if ports > 0 {
        lemma_union_empty::<C, D>((ports - 1) as nat);
        lemma_empty_multiset::<C::Packet>();
        assert(routed_union::<C, D>(Seq::empty(), ports) =~= Multiset::<C::Packet>::empty());
    }
}

/// The builder of a classify link.
pub struct ClassifyLink<S, C, D> {
    in_stream: Option<S>,
    classifier: Option<C>,
    dispatcher: Option<D>,
    queue_capacity: usize,
    num_egressors: Option<usize>,
}

impl<S, C, D> ClassifyLink<S, C, D> {
    #[verifier::type_invariant]
    spec fn admissible(self) -> bool {
        &&& in_valid_range(self.queue_capacity)
        &&& match self.num_egressors {
            Some(n) => in_valid_range(n),
            None => true,
        }
    }
}

impl<
    S: PacketStream,
    C: Classifier<Packet = S::Item>,
    D: Dispatcher<Class = C::Class>,
> ClassifyLink<S, C, D> {
    /// The input stream that the builder was given, if any.
    pub closed spec fn ingress(&self) -> Option<S> {
        self.in_stream
    }

    /// Whether the builder was given a classifier.
    pub closed spec fn has_classifier(&self) -> bool {
        self.classifier.is_some()
    }

    /// Whether the builder was given a dispatcher.
    pub closed spec fn has_dispatcher(&self) -> bool {
        self.dispatcher.is_some()
    }

    /// The capacity that each port's queue will have.
    pub closed spec fn capacity(&self) -> usize {
        self.queue_capacity
    }

    /// The number of ports that the builder was given, if any.
    pub closed spec fn arity(&self) -> Option<usize> {
        self.num_egressors
    }

    /// Whether the builder has what `build_link` needs: an input stream, a
    /// classifier, a dispatcher and a number of ports.
    pub open spec fn complete(&self) -> bool {
        &&& self.ingress().is_some()
        &&& self.has_classifier()
        &&& self.has_dispatcher()
        &&& self.arity().is_some()
    }

    /// A builder with nothing set, for queues of the default capacity.
    pub fn new() -> (link: Self)
        ensures
            link.ingress().is_none(),
            !link.has_classifier(),
            !link.has_dispatcher(),
            link.capacity() == DEFAULT_QUEUE_CAPACITY,
            link.arity().is_none(),
    {
        ClassifyLink {
            in_stream: None,
            classifier: None,
            dispatcher: None,
            queue_capacity: DEFAULT_QUEUE_CAPACITY,
            num_egressors: None,
        }
    }

    /// Sets the input stream.
    pub fn ingressor(self, in_stream: S) -> (link: Self)
        ensures
            link.ingress() == Some(in_stream),
            link.has_classifier() == self.has_classifier(),
            link.has_dispatcher() == self.has_dispatcher(),
            link.capacity() == self.capacity(),
            link.arity() == self.arity(),
    {
        proof {
            use_type_invariant(&self);
        }
        ClassifyLink {
            in_stream: Some(in_stream),
            classifier: self.classifier,
            dispatcher: self.dispatcher,
            queue_capacity: self.queue_capacity,
            num_egressors: self.num_egressors,
        }
    }

    /// Sets the classifier.
    pub fn classifier(self, classifier: C) -> (link: Self)
        ensures
            link.ingress() == self.ingress(),
            link.has_classifier(),
            link.has_dispatcher() == self.has_dispatcher(),
            link.capacity() == self.capacity(),
            link.arity() == self.arity(),
    {
        proof {
            use_type_invariant(&self);
        }
        ClassifyLink {
            in_stream: self.in_stream,
            classifier: Some(classifier),
            dispatcher: self.dispatcher,
            queue_capacity: self.queue_capacity,
            num_egressors: self.num_egressors,
        }
    }

    /// Sets the dispatcher.
    pub fn dispatcher(self, dispatcher: D) -> (link: Self)
        ensures
            link.ingress() == self.ingress(),
            link.has_classifier() == self.has_classifier(),
            link.has_dispatcher(),
            link.capacity() == self.capacity(),
            link.arity() == self.arity(),
    {
        proof {
            use_type_invariant(&self);
        }
        ClassifyLink {
            in_stream: self.in_stream,
            classifier: self.classifier,
            dispatcher: Some(dispatcher),
            queue_capacity: self.queue_capacity,
            num_egressors: self.num_egressors,
        }
    }

    /// Sets the capacity of each port's queue.
    pub fn queue_capacity(self, queue_capacity: usize) -> (link: Self)
        requires
            in_valid_range(queue_capacity),
        ensures
            link.ingress() == self.ingress(),
            link.has_classifier() == self.has_classifier(),
            link.has_dispatcher() == self.has_dispatcher(),
            link.capacity() == queue_capacity,
            link.arity() == self.arity(),
    {
        proof {
            use_type_invariant(&self);
        }
        ClassifyLink {
            in_stream: self.in_stream,
            classifier: self.classifier,
            dispatcher: self.dispatcher,
            queue_capacity,
            num_egressors: self.num_egressors,
        }
    }

    /// Sets the number of ports.
    pub fn num_egressors(self, num_egressors: usize) -> (link: Self)
        requires
            in_valid_range(num_egressors),
        ensures
            link.ingress() == self.ingress(),
            link.has_classifier() == self.has_classifier(),
            link.has_dispatcher() == self.has_dispatcher(),
            link.capacity() == self.capacity(),
            link.arity() == Some(num_egressors),
    {
        proof {
            use_type_invariant(&self);
        }
        ClassifyLink {
            in_stream: self.in_stream,
            classifier: self.classifier,
            dispatcher: self.dispatcher,
            queue_capacity: self.queue_capacity,
            num_egressors: Some(num_egressors),
        }
    }

    /// Tells whether the builder has what `build_link` needs.
    pub fn is_complete(&self) -> (complete: bool)
        ensures
            complete == self.complete(),
    {
        self.in_stream.is_some() && self.classifier.is_some() && self.dispatcher.is_some()
            && self.num_egressors.is_some()
    }

    /// Builds the link: one empty queue of the chosen capacity per port, and
    /// the runnable that feeds them from the input stream. The dispatcher
    /// names one of the link's ports for every class.
    pub fn build_link(self) -> (classify: ClassifyIngressor<S, C, D>)
        requires
            self.complete(),
            self.ingress().unwrap().inv(),
            forall|class: C::Class| #[trigger] D::port_of(class) < self.arity().unwrap(),
        ensures
            classify.inv(),
            !classify.finished(),
            classify.held().is_none(),
            classify.input() == self.ingress().unwrap(),
            classify.routed() == Seq::<S::Item>::empty(),
            classify.ports().len() == self.arity().unwrap(),
            forall|p: int|
                0 <= p < classify.ports().len() ==> {
                    &&& (#[trigger] classify.ports()[p]).queued() == Seq::<S::Item>::empty()
                    &&& classify.ports()[p].delivered() == Seq::<S::Item>::empty()
                    &&& classify.ports()[p].park() == TaskParkState::Empty
                    &&& classify.ports()[p].capacity() == self.capacity()
                },
    {
        proof {
            use_type_invariant(&self);
        }
        let queue_capacity = self.queue_capacity;
        let num_egressors = self.num_egressors.unwrap();
        let mut to_egressors: Vec<QueueEgressor<S::Item>> = Vec::new();
        let mut port: usize = 0;
        while port < num_egressors
            invariant
                in_valid_range(queue_capacity),
                port <= num_egressors,
                to_egressors@.len() == port,
                forall|p: int|
                    0 <= p < port ==> {
                        &&& (#[trigger] to_egressors@[p]).inv()
                        &&& to_egressors@[p].queued() == Seq::<S::Item>::empty()
                        &&& to_egressors@[p].delivered() == Seq::<S::Item>::empty()
                        &&& to_egressors@[p].park() == TaskParkState::Empty
                        &&& to_egressors@[p].capacity() == queue_capacity
                    },
            decreases num_egressors - port,
        {
            to_egressors.push(QueueEgressor::new(queue_capacity));
            port += 1;
        }
        let classify = ClassifyIngressor {
            input_stream: self.in_stream.unwrap(),
            classifier: self.classifier.unwrap(),
            dispatcher: self.dispatcher.unwrap(),
            to_egressors,
            held: None,
            finished: false,
            routed: Ghost(Seq::empty()),
        };
        proof {
            assert forall|p: int| 0 <= p < classify.ports().len() implies (
            #[trigger] classify.ports()[p]).sent() == routed_to::<C, D>(classify.routed(), p) by {
                assert(classify.ports()[p].sent() =~= Seq::<S::Item>::empty());
            }
        }
        classify
    }
}

/// The runnable of a classify link together with the queues of its ports.
///
/// `step` and `poll` are the producer's turns; `pull` is the consumer end of
/// one port.
pub struct ClassifyIngressor<S: PacketStream, C, D> {
    input_stream: S,
    classifier: C,
    dispatcher: D,
    to_egressors: Vec<QueueEgressor<S::Item>>,
    held: Option<S::Item>,
    finished: bool,
    routed: Ghost<Seq<S::Item>>,
}

impl<
    S: PacketStream,
    C: Classifier<Packet = S::Item>,
    D: Dispatcher<Class = C::Class>,
> ClassifyIngressor<S, C, D> {
    /// The input stream as it now stands.
    pub closed spec fn input(&self) -> S {
        self.input_stream
    }

    /// The ports, each with its queue and park.
    pub closed spec fn ports(&self) -> Seq<QueueEgressor<S::Item>> {
        self.to_egressors@
    }

    /// The packet that was taken from the input and waits for room on its
    /// port, if there is one.
    pub closed spec fn held(&self) -> Option<S::Item> {
        self.held
    }

    /// The packets that were sent to their ports so far, in the order of the
    /// input.
    pub closed spec fn routed(&self) -> Seq<S::Item> {
        self.routed@
    }

    /// Whether the producer has terminated.
    pub closed spec fn finished(&self) -> bool {
        self.finished
    }

    /// The packets that are still to be routed: the one held, if any, and
    /// what the input has yet to give.
    pub open spec fn unrouted(&self) -> Seq<S::Item> {
        match self.held() {
            Some(packet) => seq![packet] + self.input().pending(),
            None => self.input().pending(),
        }
    }

    /// Every port has been sent exactly the routed packets that are its own,
    /// in their order; the dispatcher names one of the ports for every
    /// class; once the producer has terminated every park is dead.
    pub open spec fn inv(&self) -> bool {
        &&& self.input().inv()
        &&& 1 <= self.ports().len() <= MAX_QUEUE_CAPACITY
        &&& forall|class: C::Class| #[trigger] D::port_of(class) < self.ports().len()
        &&& forall|p: int|
            0 <= p < self.ports().len() ==> {
                &&& (#[trigger] self.ports()[p]).inv()
                &&& self.ports()[p].sent() == routed_to::<C, D>(self.routed(), p)
                &&& self.finished() ==> self.ports()[p].park() == TaskParkState::Dead
            }
    }

    /// The ports partition what was routed: what the ports were sent, taken
    /// together, is the routed packets as a multiset.
    pub proof fn lemma_ports_partition(self)
        requires
            self.inv(),
        ensures
            routed_union::<C, D>(self.routed(), self.ports().len()) == self.routed().to_multiset(),
            forall|p: int|
                0 <= p < self.ports().len() ==> (#[trigger] self.ports()[p]).sent() == routed_to::<
                    C,
                    D,
                >(self.routed(), p),
    {
        assert forall|i: int| 0 <= i < self.routed().len() implies port_for::<C, D>(
            #[trigger] self.routed()[i],
        ) < self.ports().len() by {
            assert(D::port_of(C::class_of(self.routed()[i])) < self.ports().len());
        }
        lemma_routed_partition::<C, D>(self.routed(), self.ports().len());
    }

    /// The number of ports.
    pub fn num_ports(&self) -> (n: usize)
        ensures
            n == self.ports().len(),
    {
        self.to_egressors.len()
    }

    /// Tells whether the producer has terminated.
    pub fn is_finished(&self) -> (finished: bool)
        ensures
            finished == self.finished(),
    {
        self.finished
    }

    /// One turn of the producer on behalf of task `me`. Returns the outcome
    /// and the tasks to notify.
    ///
    /// The packet at hand is the one held from an earlier turn or else the
    /// next of the input. Where its port is full, the task parks against
    /// that port and holds the packet; otherwise the packet is sent there
    /// and a wake-up raised. The end of the input kills every park;
    /// `NotReady` changes nothing.
    pub fn step(&mut self, me: TaskId) -> (out: (Step, Vec<TaskId>))
        requires
            old(self).inv(),
        ensures
            final(self).inv(),
            final(self).ports().len() == old(self).ports().len(),
            classify_stepped(*old(self), me, out.0, out.1@, *final(self)),
    {
        if self.finished {
            return (Step::Done, Vec::new());
        }
        let at_hand = self.held.take();
        let packet = match at_hand {
            Some(packet) => packet,
            None => {
                match self.input_stream.pull() {
                    Pull::NotReady => {
                        return (Step::Blocked, Vec::new());
                    },
                    Pull::End => {
                        let wakes = close_all(&mut self.to_egressors);
                        self.finished = true;
                        proof {
                            assert forall|p: int| 0 <= p < self.ports().len() implies {
                                &&& (#[trigger] self.ports()[p]).inv()
                                &&& self.ports()[p].sent() == routed_to::<C, D>(self.routed(), p)
                            } by {
                                assert(old(self).ports()[p].inv());
                            }
                        }
                        return (Step::Done, wakes);
                    },
                    Pull::Item(packet) => packet,
                }
            },
        };
        let class = self.classifier.classify(&packet);
        let port = self.dispatcher.dispatch(class);
        let mut wakes: Vec<TaskId> = Vec::new();
        assert(self.ports()[port as int].inv());
        if self.to_egressors[port].is_full() {
            let wake = self.to_egressors[port].park_producer(me);
            match wake {
                Some(task) => {
                    wakes.push(task);
                },
                None => {},
            }
            self.held = Some(packet);
            proof {
                assert forall|p: int| 0 <= p < self.ports().len() implies {
                    &&& (#[trigger] self.ports()[p]).inv()
                    &&& self.ports()[p].sent() == routed_to::<C, D>(self.routed(), p)
                } by {
                    assert(old(self).ports()[p].inv());
                }
            }
            (Step::Blocked, wakes)
        } else {
            let wake = self.to_egressors[port].send(packet);
            match wake {
                Some(task) => {
                    wakes.push(task);
                },
                None => {},
            }
            proof {
                self.routed@ = self.routed@.push(packet);
                assert forall|p: int| 0 <= p < self.ports().len() implies {
                    &&& (#[trigger] self.ports()[p]).inv()
                    &&& self.ports()[p].sent() == routed_to::<C, D>(self.routed(), p)
                } by {
                    assert(old(self).ports()[p].inv());
                    lemma_routed_push::<C, D>(old(self).routed(), packet, p);
                    if p == port {
                        assert(self.ports()[p].sent() =~= old(self).ports()[p].sent().push(packet));
                    }
                }
            }
            (Step::Progress, wakes)
        }
    }

    /// The producer's turns for task `me`, one after the other, until it is
    /// blocked or done. Returns the outcome and the tasks to notify.
    ///
    /// Nothing is lost or made up: what was routed and what is still to be
    /// routed make up the same input as before. The producer is blocked on a
    /// full port, where it is parked or was told to come back, or on the
    /// input.
    pub fn poll(&mut self, me: TaskId) -> (out: (Step, Vec<TaskId>))
        requires
            old(self).inv(),
        ensures
            final(self).inv(),
            final(self).ports().len() == old(self).ports().len(),
            out.0 != Step::Progress,
            final(self).routed() + final(self).unrouted() == old(self).routed() + old(self).unrouted(),
            old(self).routed().is_prefix_of(final(self).routed()),
            forall|p: int|
                0 <= p < old(self).ports().len() ==> (#[trigger] final(self).ports()[p]).delivered()
                    == old(self).ports()[p].delivered(),
            out.0 == Step::Done ==> final(self).finished() && (old(self).finished()
                || final(self).unrouted().len() == 0),
            out.0 == Step::Blocked ==> !final(self).finished() && (blocked_on_full(
                final(self).ports(),
                me,
                out.1@,
            ) || final(self).input().stalls() < old(self).input().stalls()),
            classify_polled(*old(self), me, out.0, out.1@, *final(self)),
    {
        let mut wakes: Vec<TaskId> = Vec::new();
        proof {
            assert forall|o: Step, w: Seq<TaskId>, a: Self| #[trigger]
                classify_polled(*self, me, o, w, a) implies classify_polled(
                *old(self),
                me,
                o,
                wakes@ + w,
                a,
            ) by {
                assert(wakes@ + w =~= w);
            }
        }
        loop
            invariant
                self.inv(),
                forall|o: Step, w: Seq<TaskId>, a: Self| #[trigger]
                    classify_polled(*self, me, o, w, a) ==> classify_polled(
                        *old(self),
                        me,
                        o,
                        wakes@ + w,
                        a,
                    ),
                self.ports().len() == old(self).ports().len(),
                self.routed() + self.unrouted() == old(self).routed() + old(self).unrouted(),
                old(self).routed().is_prefix_of(self.routed()),
                self.input().stalls() <= old(self).input().stalls(),
                self.finished() == old(self).finished(),
                forall|p: int|
                    0 <= p < old(self).ports().len() ==> (#[trigger] self.ports()[p]).delivered()
                        == old(self).ports()[p].delivered(),
            decreases self.unrouted().len(),
        {
            let ghost before = *self;
            let ghost woken_before = wakes@;
            let (step, mut more) = self.step(me);
            let ghost added = more@;
            wakes.append(&mut more);
            proof {
                assert(self.routed() + self.unrouted() =~= before.routed() + before.unrouted());
                if step == Step::Blocked && self.held().is_some() {
                    let port = port_for::<C, D>(before.unrouted()[0]);
                    assert(self.ports()[port].full());
                    assert(wakes@ =~= woken_before + added);
                    if park_transition(before.ports()[port].park(), me).1 == Some(me) {
                        assert(wakes@[wakes@.len() - 1] == me);
                    }
                }
                assert(wakes@ =~= woken_before + added);
                assert(classify_stepped(before, me, step, added, *self));
                if step == Step::Progress {
                    assert forall|o: Step, w: Seq<TaskId>, a: Self| #[trigger]
                        classify_polled(*self, me, o, w, a) implies classify_polled(
                        *old(self),
                        me,
                        o,
                        wakes@ + w,
                        a,
                    ) by {
                        let all = added + w;
                        assert(all.take(added.len() as int) =~= added);
                        assert(all.skip(added.len() as int) =~= w);
                        assert(classify_polled(before, me, o, all, a));
                        assert(woken_before + all =~= wakes@ + w);
                    }
                } else {
                    assert(classify_polled(before, me, step, added, *self));
                }
            }
            match step {
                Step::Progress => {},
                _ => {
                    return (step, wakes);
                },
            }
        }
    }

    /// The consumer end of port `port`, pulled by task `me`. Returns the
    /// outcome and the task to notify. No other port changes.
    pub fn pull(&mut self, port: usize, me: TaskId) -> (out: (Pull<S::Item>, Option<TaskId>))
        requires
            old(self).inv(),
            port < old(self).ports().len(),
        ensures
            final(self).inv(),
            final(self).ports().len() == old(self).ports().len(),
            final(self).input() == old(self).input(),
            final(self).held() == old(self).held(),
            final(self).routed() == old(self).routed(),
            final(self).finished() == old(self).finished(),
            forall|p: int|
                0 <= p < old(self).ports().len() && p != port ==> #[trigger] final(self).ports()[p]
                    == old(self).ports()[p],
            egress_pulled(
                old(self).ports()[port as int],
                me,
                out.0,
                out.1,
                final(self).ports()[port as int],
            ),
    {
        assert(self.ports()[port as int].inv());
        let out = self.to_egressors[port].pull(me);
        proof {
            assert forall|p: int| 0 <= p < self.ports().len() implies {
                &&& (#[trigger] self.ports()[p]).inv()
                &&& self.ports()[p].sent() == routed_to::<C, D>(self.routed(), p)
                &&& self.finished() ==> self.ports()[p].park() == TaskParkState::Dead
            } by {
                assert(old(self).ports()[p].inv());
            }
        }
        out
    }

    /// Ends the producer before its input has ended: every park dies, so
    /// that each consumer sees the end once its queue is empty. Returns the
    /// tasks to release.
    pub fn shutdown(&mut self) -> (wakes: Vec<TaskId>)
        requires
            old(self).inv(),
        ensures
            final(self).inv(),
            final(self).finished(),
            final(self).input() == old(self).input(),
            final(self).held() == old(self).held(),
            final(self).routed() == old(self).routed(),
            final(self).ports().len() == old(self).ports().len(),
            forall|p: int|
                0 <= p < old(self).ports().len() ==> port_closed(
                    old(self).ports()[p],
                    #[trigger] final(self).ports()[p],
                ),
            wakes@ == parked_tasks(old(self).ports()),
    {
        let wakes = close_all(&mut self.to_egressors);
        self.finished = true;
        proof {
            assert forall|p: int| 0 <= p < self.ports().len() implies {
                &&& (#[trigger] self.ports()[p]).inv()
                &&& self.ports()[p].sent() == routed_to::<C, D>(self.routed(), p)
            } by {
                assert(old(self).ports()[p].inv());
            }
        }
        wakes
    }

    /// Pulls every port until its queue is empty and appends what each gave
    /// to its list in `results`.
    fn drain_ports(&mut self, results: &mut Vec<Vec<S::Item>>, Ghost(base): Ghost<Seq<Seq<S::Item>>>)
        requires
            old(self).inv(),
            collected(base, old(results)@, old(self).ports()),
        ensures
            final(self).inv(),
            final(self).ports().len() == old(self).ports().len(),
            final(self).input() == old(self).input(),
            final(self).held() == old(self).held(),
            final(self).routed() == old(self).routed(),
            final(self).finished() == old(self).finished(),
            collected(base, final(results)@, final(self).ports()),
            forall|p: int|
                0 <= p < old(self).ports().len() ==> !(#[trigger] final(self).ports()[p]).full()
                    && final(self).ports()[p].queued().len() == 0,
    {
        drain_all(&mut self.to_egressors, results, Ghost(base));
        proof {
            assert forall|p: int| 0 <= p < self.ports().len() implies {
                &&& (#[trigger] self.ports()[p]).inv()
                &&& self.ports()[p].sent() == routed_to::<C, D>(self.routed(), p)
                &&& self.ports()[p].queued().len() == 0
                &&& !self.ports()[p].full()
                &&& self.finished() ==> self.ports()[p].park() == TaskParkState::Dead
            } by {
                assert(port_drained(old(self).ports()[p], self.ports()[p]));
                self.ports()[p].lemma_capacity();
            }
        }
    }

    /// Runs the link to its end: the producer and the consumers of all ports
    /// take turns until the input has ended and every queue is empty.
    /// Returns, for each port, the packets that its consumer pulled in the
    /// course of this.
    ///
    /// Every port has then been handed exactly the packets of the input that
    /// are its own, in the input's order, and the run ends whatever the
    /// input's stalls.
    pub fn run(&mut self) -> (results: Vec<Vec<S::Item>>)
        requires
            old(self).inv(),
        ensures
            final(self).inv(),
            final(self).finished(),
            final(self).ports().len() == old(self).ports().len(),
            results@.len() == old(self).ports().len(),
            forall|p: int|
                0 <= p < old(self).ports().len() ==> {
                    &&& (#[trigger] final(self).ports()[p]).queued().len() == 0
                    &&& final(self).ports()[p].delivered() == old(self).ports()[p].delivered()
                        + results@[p]@
                },
            !old(self).finished() ==> {
                &&& final(self).unrouted().len() == 0
                &&& final(self).routed() == old(self).routed() + old(self).unrouted()
                &&& forall|p: int|
                    0 <= p < old(self).ports().len() ==> old(self).ports()[p].delivered() + (
                    #[trigger] results@[p])@ == routed_to::<C, D>(
                        old(self).routed() + old(self).unrouted(),
                        p,
                    )
            },
    {
        let n = self.to_egressors.len();
        let ghost base = Seq::new(n as nat, |p: int| old(self).ports()[p].delivered());
        let mut results: Vec<Vec<S::Item>> = Vec::new();
        let mut port: usize = 0;
        while port < n
            invariant
                port <= n,
                results@.len() == port,
                forall|p: int| 0 <= p < port ==> (#[trigger] results@[p])@ == Seq::<S::Item>::empty(),
            decreases n - port,
        {
            results.push(Vec::new());
            port += 1;
        }
        proof {
            assert forall|p: int| 0 <= p < base.len() implies base[p] + (#[trigger] results@[p])@
                == self.ports()[p].delivered() by {
                assert(base[p] + results@[p]@ =~= base[p]);
            }
        }
        loop
            invariant
                self.inv(),
                n == self.ports().len(),
                n == old(self).ports().len(),
                n == base.len(),
                forall|p: int| 0 <= p < n ==> #[trigger] base[p] == old(self).ports()[p].delivered(),
                collected(base, results@, self.ports()),
                self.routed() + self.unrouted() == old(self).routed() + old(self).unrouted(),
                self.finished() == old(self).finished(),
            decreases self.unrouted().len() + self.input().stalls(),
        {
            self.drain_ports(&mut results, Ghost(base));
            let ghost before = *self;
            let (step, _) = self.step(0);
            proof {
                assert(self.routed() + self.unrouted() =~= before.routed() + before.unrouted());
                assert forall|p: int| 0 <= p < base.len() implies base[p] + (
                #[trigger] results@[p])@ == self.ports()[p].delivered() by {
                    assert(base[p] + results@[p]@ == before.ports()[p].delivered());
                }
                if step != Step::Done && before.held().is_some() {
                    assert(!before.ports()[port_for::<C, D>(before.unrouted()[0])].full());
                }
            }
            match step {
                Step::Done => {
                    self.drain_ports(&mut results, Ghost(base));
                    proof {
                        if !old(self).finished() {
                            assert(self.unrouted() =~= Seq::<S::Item>::empty());
                            assert(self.routed() + self.unrouted() =~= self.routed());
                        }
                        assert forall|p: int| 0 <= p < n implies {
                            &&& (#[trigger] self.ports()[p]).queued().len() == 0
                            &&& self.ports()[p].delivered() == base[p] + results@[p]@
                            &&& self.ports()[p].sent() == self.ports()[p].delivered()
                        } by {
                            assert(base[p] + results@[p]@ == self.ports()[p].delivered());
                            assert(self.ports()[p].sent() =~= self.ports()[p].delivered());
                        }
                    }
                    return results;
                },
                _ => {},
            }
        }
    }
}

/// The relation between a classify link before its producer, task `me`, is
/// polled, the outcome, the tasks to notify, and the link after the poll:
/// the producer takes its turns one after the other, as long as they make
/// progress, and the tasks that the turns name are notified in that order.
pub open spec fn classify_polled<
    S: PacketStream,
    C: Classifier<Packet = S::Item>,
    D: Dispatcher<Class = C::Class>,
>(
    before: ClassifyIngressor<S, C, D>,
    me: TaskId,
    out: Step,
    wakes: Seq<TaskId>,
    after: ClassifyIngressor<S, C, D>,
) -> bool
    decreases before.unrouted().len(),
{
    exists|step: Step, woken: Seq<TaskId>, mid: ClassifyIngressor<S, C, D>|
        #[trigger] classify_stepped(before, me, step, woken, mid) && if step == Step::Progress {
            &&& woken.len() <= wakes.len()
            &&& wakes.take(woken.len() as int) == woken
            &&& mid.unrouted().len() < before.unrouted().len()
            &&& classify_polled(mid, me, out, wakes.skip(woken.len() as int), after)
        } else {
            &&& out == step
            &&& wakes == woken
            &&& after == mid
        }
}

/// The relation between a classify link before one turn of its producer for
/// task `me`, the outcome, the tasks to notify, and the link after the turn.
pub open spec fn classify_stepped<
    S: PacketStream,
    C: Classifier<Packet = S::Item>,
    D: Dispatcher<Class = C::Class>,
>(
    before: ClassifyIngressor<S, C, D>,
    me: TaskId,
    step: Step,
    wakes: Seq<TaskId>,
    after: ClassifyIngressor<S, C, D>,
) -> bool {
    let pending = before.input().pending();
    if before.finished() {
        &&& step == Step::Done
        &&& wakes == Seq::<TaskId>::empty()
        &&& after == before
    } else if before.held().is_none() && step == Step::Done {
        &&& pending.len() == 0
        &&& after.input().pending().len() == 0
        &&& after.held().is_none()
        &&& after.routed() == before.routed()
        &&& after.finished()
        &&& wakes == parked_tasks(before.ports())
        &&& forall|p: int|
            0 <= p < before.ports().len() ==> port_closed(
                before.ports()[p],
                #[trigger] after.ports()[p],
            )
    } else if before.held().is_none() && step == Step::Blocked && after.held().is_none() {
        &&& after.input().pending() == pending
        &&& after.input().stalls() < before.input().stalls()
        &&& after.routed() == before.routed()
        &&& !after.finished()
        &&& after.ports() == before.ports()
        &&& wakes == Seq::<TaskId>::empty()
    } else {
        let packet = before.unrouted()[0];
        let port = port_for::<C, D>(packet);
        &&& step != Step::Done
        &&& before.unrouted().len() > 0
        &&& !after.finished()
        &&& before.held().is_some() ==> after.input() == before.input()
        &&& before.held().is_none() ==> after.input().pending() == pending.skip(1)
            && after.input().stalls() <= before.input().stalls()
        &&& forall|p: int|
            0 <= p < before.ports().len() && p != port ==> #[trigger] after.ports()[p]
                == before.ports()[p]
        &&& after.ports()[port].delivered() == before.ports()[port].delivered()
        &&& after.ports()[port].capacity() == before.ports()[port].capacity()
        &&& if before.ports()[port].full() {
            &&& step == Step::Blocked
            &&& after.held() == Some(packet)
            &&& after.routed() == before.routed()
            &&& after.ports()[port].queued() == before.ports()[port].queued()
            &&& (after.ports()[port].park(), wakes) == (
                park_transition(before.ports()[port].park(), me).0,
                woken(park_transition(before.ports()[port].park(), me).1),
            )
        } else {
            &&& step == Step::Progress
            &&& after.held().is_none()
            &&& after.routed() == before.routed().push(packet)
            &&& after.ports()[port].queued() == before.ports()[port].queued().push(packet)
            &&& (after.ports()[port].park(), wakes) == (
                unpark_transition(before.ports()[port].park()).0,
                woken(unpark_transition(before.ports()[port].park()).1),
            )
        }
    }
}

} // verus!
