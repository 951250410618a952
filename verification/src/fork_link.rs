//! The fork link: every packet of one input is copied to each of N ports.

use crate::queue::{in_valid_range, DEFAULT_QUEUE_CAPACITY, MAX_QUEUE_CAPACITY};
use crate::queue_egressor::{
    blocked_on_full, close_all, collected, copies, drain_all, egress_pulled, first_full,
    first_full_port, lemma_copy_extends, lemma_first_full, lemma_none_full, parked_tasks,
    port_closed, port_drained, port_got_copy, send_to_all, QueueEgressor,
};
use crate::stream::{PacketStream, Pull, Step};
use crate::task_park::{park_transition, TaskId, TaskParkState};
use vstd::prelude::*;

verus! {

/// The builder of a fork link.
pub struct ForkLink<S: PacketStream> {
    in_stream: Option<S>,
    queue_capacity: usize,
    num_egressors: Option<usize>,
}

impl<S: PacketStream> ForkLink<S> {
    #[verifier::type_invariant]
    spec fn admissible(self) -> bool {
        &&& in_valid_range(self.queue_capacity)
        &&& match self.num_egressors {
            Some(n) => in_valid_range(n),
            None => true,
        }
    }
}

impl<S: PacketStream> ForkLink<S> where S::Item: Clone {
    /// The input stream that the builder was given, if any.
    pub closed spec fn ingress(&self) -> Option<S> {
        self.in_stream
    }

    /// The capacity that each port's queue will have.
    pub closed spec fn capacity(&self) -> usize {
        self.queue_capacity
    }

    /// The number of ports that the builder was given, if any.
    pub closed spec fn arity(&self) -> Option<usize> {
        self.num_egressors
    }

    /// A builder without input and without a number of ports, for queues of
    /// the default capacity.
    pub fn new() -> (link: Self)
        ensures
            link.ingress().is_none(),
            link.capacity() == DEFAULT_QUEUE_CAPACITY,
            link.arity().is_none(),
    {
        ForkLink { in_stream: None, queue_capacity: DEFAULT_QUEUE_CAPACITY, num_egressors: None }
    }

    /// Sets the capacity of each port's queue.
    pub fn queue_capacity(self, queue_capacity: usize) -> (link: Self)
        requires
            in_valid_range(queue_capacity),
        ensures
            link.ingress() == self.ingress(),
            link.capacity() == queue_capacity,
            link.arity() == self.arity(),
    {
        proof {
            use_type_invariant(&self);
        }
        ForkLink { in_stream: self.in_stream, queue_capacity, num_egressors: self.num_egressors }
    }

    /// Sets the number of ports.
    pub fn num_egressors(self, num_egressors: usize) -> (link: Self)
        requires
            in_valid_range(num_egressors),
        ensures
            link.ingress() == self.ingress(),
            link.capacity() == self.capacity(),
            link.arity() == Some(num_egressors),
    {
        proof {
            use_type_invariant(&self);
        }
        ForkLink {
            in_stream: self.in_stream,
            queue_capacity: self.queue_capacity,
            num_egressors: Some(num_egressors),
        }
    }

    /// Sets the input stream.
    pub fn ingressor(self, in_stream: S) -> (link: Self)
        ensures
            link.ingress() == Some(in_stream),
            link.capacity() == self.capacity(),
            link.arity() == self.arity(),
    {
        proof {
            use_type_invariant(&self);
        }
        ForkLink {
            in_stream: Some(in_stream),
            queue_capacity: self.queue_capacity,
            num_egressors: self.num_egressors,
        }
    }

    /// Sets the input stream from a list that holds exactly one.
    pub fn ingressors(self, in_streams: Vec<S>) -> (link: Self)
        requires
            in_streams@.len() == 1,
        ensures
            link.ingress() == Some(in_streams@[0]),
            link.capacity() == self.capacity(),
            link.arity() == self.arity(),
    {
        proof {
            use_type_invariant(&self);
        }
        let mut in_streams = in_streams;
        let in_stream = in_streams.remove(0);
        ForkLink {
            in_stream: Some(in_stream),
            queue_capacity: self.queue_capacity,
            num_egressors: self.num_egressors,
        }
    }

    /// Tells whether the builder has what `build_link` needs: an input stream
    /// and a number of ports.
    pub fn is_complete(&self) -> (complete: bool)
        ensures
            complete == (self.ingress().is_some() && self.arity().is_some()),
    {
        self.in_stream.is_some() && self.num_egressors.is_some()
    }

    /// Builds the link: one empty queue of the chosen capacity per port, and
    /// the runnable that feeds them from the input stream.
    pub fn build_link(self) -> (fork: ForkIngressor<S>)
        requires
            self.ingress().is_some(),
            self.arity().is_some(),
            self.ingress().unwrap().inv(),
        ensures
            fork.inv(),
            !fork.finished(),
            fork.input() == self.ingress().unwrap(),
            fork.taken() == Seq::<S::Item>::empty(),
            fork.ports().len() == self.arity().unwrap(),
            forall|p: int|
                0 <= p < fork.ports().len() ==> {
                    &&& (#[trigger] fork.ports()[p]).queued() == Seq::<S::Item>::empty()
                    &&& fork.ports()[p].delivered() == Seq::<S::Item>::empty()
                    &&& fork.ports()[p].park() == TaskParkState::Empty
                    &&& fork.ports()[p].capacity() == self.capacity()
                },
    {
        proof {
            use_type_invariant(&self);
        }
        let queue_capacity = self.queue_capacity;
        let num_egressors = self.num_egressors.unwrap();
        let mut to_egressors: Vec<QueueEgressor<S::Item>> = Vec::new();
        let mut port: usize = 0;
        while port < num_egressors
            invariant
                in_valid_range(queue_capacity),
                port <= num_egressors,
                to_egressors@.len() == port,
                forall|p: int|
                    0 <= p < port ==> {
                        &&& (#[trigger] to_egressors@[p]).inv()
                        &&& to_egressors@[p].queued() == Seq::<S::Item>::empty()
                        &&& to_egressors@[p].delivered() == Seq::<S::Item>::empty()
                        &&& to_egressors@[p].park() == TaskParkState::Empty
                        &&& to_egressors@[p].capacity() == queue_capacity
                    },
            decreases num_egressors - port,
        {
            to_egressors.push(QueueEgressor::new(queue_capacity));
            port += 1;
        }
        let fork = ForkIngressor::new(self.in_stream.unwrap(), to_egressors);
        fork
    }
}

/// The runnable of a fork link together with the queues of its ports.
///
/// `step` and `poll` are the producer's turns; `pull` is the consumer end of
/// one port.
pub struct ForkIngressor<S: PacketStream> {
    input_stream: S,
    to_egressors: Vec<QueueEgressor<S::Item>>,
    finished: bool,
    taken: Ghost<Seq<S::Item>>,
}

impl<S: PacketStream> ForkIngressor<S> where S::Item: Clone {
    /// The input stream as it now stands.
    pub closed spec fn input(&self) -> S {
        self.input_stream
    }

    /// The ports, each with its queue and park.
    pub closed spec fn ports(&self) -> Seq<QueueEgressor<S::Item>> {
        self.to_egressors@
    }

    /// The packets taken from the input so far, in order.
    pub closed spec fn taken(&self) -> Seq<S::Item> {
        self.taken@
    }

    /// Whether the producer has terminated.
    pub closed spec fn finished(&self) -> bool {
        self.finished
    }

    /// Every port has been sent a copy of exactly the packets taken from the
    /// input, in their order; once the producer has terminated every park is
    /// dead.
    pub open spec fn inv(&self) -> bool {
        &&& self.input().inv()
        &&& 1 <= self.ports().len() <= MAX_QUEUE_CAPACITY
        &&& forall|p: int|
            0 <= p < self.ports().len() ==> {
                &&& (#[trigger] self.ports()[p]).inv()
                &&& copies(self.taken(), self.ports()[p].sent())
                &&& self.finished() ==> self.ports()[p].park() == TaskParkState::Dead
            }
    }

    /// The runnable over `input_stream` and the given, still unused ports.
    pub fn new(input_stream: S, to_egressors: Vec<QueueEgressor<S::Item>>) -> (fork: Self)
        requires
            input_stream.inv(),
            1 <= to_egressors@.len() <= MAX_QUEUE_CAPACITY,
            forall|p: int|
                0 <= p < to_egressors@.len() ==> {
                    &&& (#[trigger] to_egressors@[p]).inv()
                    &&& to_egressors@[p].sent() == Seq::<S::Item>::empty()
                },
        ensures
            fork.inv(),
            !fork.finished(),
            fork.input() == input_stream,
            fork.ports() == to_egressors@,
            fork.taken() == Seq::<S::Item>::empty(),
    {
        ForkIngressor { input_stream, to_egressors, finished: false, taken: Ghost(Seq::empty()) }
    }

    /// The number of ports.
    pub fn num_ports(&self) -> (n: usize)
        ensures
            n == self.ports().len(),
    {
        self.to_egressors.len()
    }

    /// Tells whether the producer has terminated.
    pub fn is_finished(&self) -> (finished: bool)
        ensures
            finished == self.finished(),
    {
        self.finished
    }

    /// Finds the first port whose queue is full, if there is one: the port
    /// that holds the producer up.
    pub fn full_port(&self) -> (port: Option<usize>)
        requires
            self.inv(),
        ensures
            match port {
                Some(full) => full < self.ports().len() && full == first_full(self.ports(), 0),
                None => first_full(self.ports(), 0) == self.ports().len(),
            },
    {
        let full = first_full_port(&self.to_egressors);
        if full < self.to_egressors.len() {
            Some(full)
        } else {
            None
        }
    }

    /// One turn of the producer on behalf of task `me`. Returns the outcome
    /// and the tasks to notify.
    ///
    /// Where some port is full, the task parks against the first such port
    /// and nothing is taken from the input. Otherwise the input is pulled
    /// once: a packet is cloned onto every port and a wake-up raised on each;
    /// the end of the input kills every park; `NotReady` changes nothing.
    pub fn step(&mut self, me: TaskId) -> (out: (Step, Vec<TaskId>))
        requires
            old(self).inv(),
        ensures
            final(self).inv(),
            final(self).ports().len() == old(self).ports().len(),
            fork_stepped(*old(self), me, out.0, out.1@, *final(self)),
    {
        if self.finished {
            return (Step::Done, Vec::new());
        }
        let full = first_full_port(&self.to_egressors);
        if full < self.to_egressors.len() {
            let mut wakes: Vec<TaskId> = Vec::new();
            let wake = self.to_egressors[full].park_producer(me);
            match wake {
                Some(task) => {
                    wakes.push(task);
                },
                None => {},
            }
            return (Step::Blocked, wakes);
        }
        match self.input_stream.pull() {
            Pull::NotReady => (Step::Blocked, Vec::new()),
            Pull::End => {
                let wakes = close_all(&mut self.to_egressors);
                self.finished = true;
                (Step::Done, wakes)
            },
            Pull::Item(packet) => {
                let wakes = send_to_all(&mut self.to_egressors, packet);
                proof {
                    self.taken@ = self.taken@.push(packet);
                    assert forall|p: int| 0 <= p < self.ports().len() implies copies(
                        self.taken(),
                        (#[trigger] self.ports()[p]).sent(),
                    ) by {
                        lemma_copy_extends(
                            old(self).taken(),
                            old(self).ports()[p],
                            packet,
                            self.ports()[p],
                        );
                    }
                }
                (Step::Progress, wakes)
            },
        }
    }

    /// The producer's turns for task `me`, one after the other, until it is
    /// blocked or done. Returns the outcome and the tasks to notify.
    ///
    /// Nothing is lost or made up: what was taken and what is still pending
    /// make up the same input as before. The producer is blocked on a full
    /// port, where it is parked or was told to come back, or on the input.
    pub fn poll(&mut self, me: TaskId) -> (out: (Step, Vec<TaskId>))
        requires
            old(self).inv(),
        ensures
            final(self).inv(),
            final(self).ports().len() == old(self).ports().len(),
            out.0 != Step::Progress,
            final(self).taken() + final(self).input().pending() == old(self).taken()
                + old(self).input().pending(),
            old(self).taken().is_prefix_of(final(self).taken()),
            forall|p: int|
                0 <= p < old(self).ports().len() ==> (#[trigger] final(self).ports()[p]).delivered()
                    == old(self).ports()[p].delivered(),
            out.0 == Step::Done ==> final(self).finished() && (old(self).finished()
                || final(self).input().pending().len() == 0),
            out.0 == Step::Blocked ==> !final(self).finished() && (blocked_on_full(
                final(self).ports(),
                me,
                out.1@,
            ) || final(self).input().stalls() < old(self).input().stalls()),
            fork_polled(*old(self), me, out.0, out.1@, *final(self)),
    {
        let mut wakes: Vec<TaskId> = Vec::new();
        proof {
            assert forall|o: Step, w: Seq<TaskId>, a: Self| #[trigger]
                fork_polled(*self, me, o, w, a) implies fork_polled(
                *old(self),
                me,
                o,
                wakes@ + w,
                a,
            ) by {
                assert(wakes@ + w =~= w);
            }
        }
        loop
            invariant
                self.inv(),
                forall|o: Step, w: Seq<TaskId>, a: Self| #[trigger]
                    fork_polled(*self, me, o, w, a) ==> fork_polled(
                        *old(self),
                        me,
                        o,
                        wakes@ + w,
                        a,
                    ),
                self.ports().len() == old(self).ports().len(),
                self.taken() + self.input().pending() == old(self).taken()
                    + old(self).input().pending(),
                old(self).taken().is_prefix_of(self.taken()),
                self.input().stalls() <= old(self).input().stalls(),
                self.finished() == old(self).finished(),
                forall|p: int|
                    0 <= p < old(self).ports().len() ==> (#[trigger] self.ports()[p]).delivered()
                        == old(self).ports()[p].delivered(),
            decreases self.input().pending().len(),
        {
            let ghost before = *self;
            let ghost woken = wakes@;
            let (step, mut more) = self.step(me);
            let ghost added = more@;
            wakes.append(&mut more);
            proof {
                lemma_first_full(before.ports(), 0);
                assert(self.taken() + self.input().pending() =~= before.taken()
                    + before.input().pending());
                let full = first_full(before.ports(), 0);
                if step == Step::Blocked && full < before.ports().len() {
                    assert(self.ports()[full].full());
                    assert(wakes@ =~= woken + added);
                    if park_transition(before.ports()[full].park(), me).1 == Some(me) {
                        assert(wakes@[wakes@.len() - 1] == me);
                    }
                }
                assert(wakes@ =~= woken + added);
                if step == Step::Progress {
                    assert forall|o: Step, w: Seq<TaskId>, a: Self| #[trigger]
                        fork_polled(*self, me, o, w, a) implies fork_polled(
                        *old(self),
                        me,
                        o,
                        wakes@ + w,
                        a,
                    ) by {
                        let all = added + w;
                        assert(all.take(added.len() as int) =~= added);
                        assert(all.skip(added.len() as int) =~= w);
                        assert(fork_stepped(before, me, step, added, *self));
                        assert(fork_polled(before, me, o, all, a));
                        assert(woken + all =~= wakes@ + w);
                    }
                } else {
                    assert(fork_stepped(before, me, step, added, *self));
                    assert(fork_polled(before, me, step, added, *self));
                }
            }
            match step {
                Step::Progress => {},
                _ => {
                    return (step, wakes);
                },
            }
        }
    }

    /// The consumer end of port `port`, pulled by task `me`. Returns the
    /// outcome and the task to notify. No other port changes.
    pub fn pull(&mut self, port: usize, me: TaskId) -> (out: (Pull<S::Item>, Option<TaskId>))
        requires
            old(self).inv(),
            port < old(self).ports().len(),
        ensures
            final(self).inv(),
            final(self).ports().len() == old(self).ports().len(),
            final(self).input() == old(self).input(),
            final(self).taken() == old(self).taken(),
            final(self).finished() == old(self).finished(),
            forall|p: int|
                0 <= p < old(self).ports().len() && p != port ==> #[trigger] final(self).ports()[p]
                    == old(self).ports()[p],
            egress_pulled(
                old(self).ports()[port as int],
                me,
                out.0,
                out.1,
                final(self).ports()[port as int],
            ),
    {
        assert(self.ports()[port as int].inv());
        let out = self.to_egressors[port].pull(me);
        proof {
            assert forall|p: int| 0 <= p < self.ports().len() implies {
                &&& (#[trigger] self.ports()[p]).inv()
                &&& copies(self.taken(), self.ports()[p].sent())
                &&& self.finished() ==> self.ports()[p].park() == TaskParkState::Dead
            } by {
                assert(old(self).ports()[p].inv());
            }
        }
        out
    }

    /// Ends the producer before its input has ended: every park dies, so
    /// that each consumer sees the end once its queue is empty. Returns the
    /// tasks to release.
    pub fn shutdown(&mut self) -> (wakes: Vec<TaskId>)
        requires
            old(self).inv(),
        ensures
            final(self).inv(),
            final(self).finished(),
            final(self).input() == old(self).input(),
            final(self).taken() == old(self).taken(),
            final(self).ports().len() == old(self).ports().len(),
            forall|p: int|
                0 <= p < old(self).ports().len() ==> port_closed(
                    old(self).ports()[p],
                    #[trigger] final(self).ports()[p],
                ),
            wakes@ == parked_tasks(old(self).ports()),
    {
        let wakes = close_all(&mut self.to_egressors);
        self.finished = true;
        proof {
            assert forall|p: int| 0 <= p < self.ports().len() implies {
                &&& (#[trigger] self.ports()[p]).inv()
                &&& copies(self.taken(), self.ports()[p].sent())
            } by {
                assert(old(self).ports()[p].inv());
            }
        }
        wakes
    }

    /// Pulls every port until its queue is empty and appends what each gave
    /// to its list in `results`.
    fn drain_ports(&mut self, results: &mut Vec<Vec<S::Item>>, Ghost(base): Ghost<Seq<Seq<S::Item>>>)
        requires
            old(self).inv(),
            collected(base, old(results)@, old(self).ports()),
        ensures
            final(self).inv(),
            final(self).ports().len() == old(self).ports().len(),
            final(self).input() == old(self).input(),
            final(self).taken() == old(self).taken(),
            final(self).finished() == old(self).finished(),
            collected(base, final(results)@, final(self).ports()),
            forall|p: int|
                0 <= p < old(self).ports().len() ==> (#[trigger] final(self).ports()[p]).queued().len()
                    == 0,
    {
        drain_all(&mut self.to_egressors, results, Ghost(base));
        proof {
            assert forall|p: int| 0 <= p < self.ports().len() implies {
                &&& (#[trigger] self.ports()[p]).inv()
                &&& copies(self.taken(), self.ports()[p].sent())
                &&& self.ports()[p].queued().len() == 0
                &&& self.finished() ==> self.ports()[p].park() == TaskParkState::Dead
            } by {
                assert(port_drained(old(self).ports()[p], self.ports()[p]));
            }
        }
    }

    /// Runs the link to its end: the producer and the consumers of all ports
    /// take turns until the input has ended and every queue is empty.
    /// Returns, for each port, the packets that its consumer pulled in the
    /// course of this.
    ///
    /// Every port has then been handed a copy of each packet of the input, in
    /// the input's order, and the run ends whatever the input's stalls.
    pub fn run(&mut self) -> (results: Vec<Vec<S::Item>>)
        requires
            old(self).inv(),
        ensures
            final(self).inv(),
            final(self).finished(),
            final(self).ports().len() == old(self).ports().len(),
            results@.len() == old(self).ports().len(),
            forall|p: int|
                0 <= p < old(self).ports().len() ==> {
                    &&& (#[trigger] final(self).ports()[p]).queued().len() == 0
                    &&& final(self).ports()[p].delivered() == old(self).ports()[p].delivered()
                        + results@[p]@
                },
            !old(self).finished() ==> {
                &&& final(self).input().pending().len() == 0
                &&& final(self).taken() == old(self).taken() + old(self).input().pending()
                &&& forall|p: int|
                    0 <= p < old(self).ports().len() ==> copies(
                        old(self).taken() + old(self).input().pending(),
                        old(self).ports()[p].delivered() + (#[trigger] results@[p])@,
                    )
            },
    {
        let n = self.to_egressors.len();
        let ghost base = Seq::new(n as nat, |p: int| old(self).ports()[p].delivered());
        let mut results: Vec<Vec<S::Item>> = Vec::new();
        let mut port: usize = 0;
        while port < n
            invariant
                port <= n,
                results@.len() == port,
                forall|p: int| 0 <= p < port ==> (#[trigger] results@[p])@ == Seq::<S::Item>::empty(),
            decreases n - port,
        {
            results.push(Vec::new());
            port += 1;
        }
        proof {
            assert forall|p: int| 0 <= p < base.len() implies base[p] + (#[trigger] results@[p])@
                == self.ports()[p].delivered() by {
                assert(base[p] + results@[p]@ =~= base[p]);
            }
        }
        loop
            invariant
                self.inv(),
                n == self.ports().len(),
                n == old(self).ports().len(),
                n == base.len(),
                forall|p: int| 0 <= p < n ==> #[trigger] base[p] == old(self).ports()[p].delivered(),
                collected(base, results@, self.ports()),
                self.taken() + self.input().pending() == old(self).taken()
                    + old(self).input().pending(),
                self.finished() == old(self).finished(),
            decreases self.input().pending().len() + self.input().stalls(),
        {
            self.drain_ports(&mut results, Ghost(base));
            let ghost before = *self;
            proof {
                assert forall|p: int| 0 <= p < before.ports().len() implies !(
                #[trigger] before.ports()[p]).full() by {
                    assert(before.ports()[p].inv());
                    before.ports()[p].lemma_capacity();
                }
                lemma_none_full(before.ports(), 0);
            }
            let (step, _) = self.step(0);
            proof {
                assert(self.taken() + self.input().pending() =~= before.taken()
                    + before.input().pending());
                assert forall|p: int| 0 <= p < base.len() implies base[p] + (
                #[trigger] results@[p])@ == self.ports()[p].delivered() by {
                    assert(base[p] + results@[p]@ == before.ports()[p].delivered());
                }
            }
            match step {
                Step::Done => {
                    self.drain_ports(&mut results, Ghost(base));
                    proof {
                        if !old(self).finished() {
                            assert(self.input().pending() =~= Seq::<S::Item>::empty());
                            assert(self.taken() + self.input().pending() =~= self.taken());
                        }
                        assert forall|p: int| 0 <= p < n implies {
                            &&& (#[trigger] self.ports()[p]).queued().len() == 0
                            &&& self.ports()[p].delivered() == base[p] + results@[p]@
                            &&& self.ports()[p].sent() == self.ports()[p].delivered()
                        } by {
                            assert(base[p] + results@[p]@ == self.ports()[p].delivered());
                            assert(self.ports()[p].sent() =~= self.ports()[p].delivered());
                        }
                    }
                    return results;
                },
                _ => {},
            }
        }
    }
}

/// The relation between a fork before its producer, task `me`, is polled,
/// the outcome, the tasks to notify, and the fork after the poll: the
/// producer takes its turns one after the other, as long as they make
/// progress, and the tasks that the turns name are notified in that order.
pub open spec fn fork_polled<S: PacketStream>(
    before: ForkIngressor<S>,
    me: TaskId,
    out: Step,
    wakes: Seq<TaskId>,
    after: ForkIngressor<S>,
) -> bool where S::Item: Clone
    decreases before.input().pending().len(),
{
    exists|step: Step, woken: Seq<TaskId>, mid: ForkIngressor<S>|
        #[trigger] fork_stepped(before, me, step, woken, mid) && if step == Step::Progress {
            &&& woken.len() <= wakes.len()
            &&& wakes.take(woken.len() as int) == woken
            &&& mid.input().pending().len() < before.input().pending().len()
            &&& fork_polled(mid, me, out, wakes.skip(woken.len() as int), after)
        } else {
            &&& out == step
            &&& wakes == woken
            &&& after == mid
        }
}

/// The relation between a fork before one turn of its producer for task
/// `me`, the outcome, the tasks to notify, and the fork after the turn.
pub open spec fn fork_stepped<S: PacketStream>(
    before: ForkIngressor<S>,
    me: TaskId,
    step: Step,
    wakes: Seq<TaskId>,
    after: ForkIngressor<S>,
) -> bool where S::Item: Clone {
    let full = first_full(before.ports(), 0);
    let pending = before.input().pending();
    if before.finished() {
        &&& step == Step::Done
        &&& wakes == Seq::<TaskId>::empty()
        &&& after == before
    } else if full < before.ports().len() {
        let parked = park_transition(before.ports()[full].park(), me);
        &&& step == Step::Blocked
        &&& after.input() == before.input()
        &&& after.taken() == before.taken()
        &&& !after.finished()
        &&& forall|p: int|
            0 <= p < before.ports().len() && p != full ==> #[trigger] after.ports()[p]
                == before.ports()[p]
        &&& after.ports()[full].queued() == before.ports()[full].queued()
        &&& after.ports()[full].delivered() == before.ports()[full].delivered()
        &&& after.ports()[full].capacity() == before.ports()[full].capacity()
        &&& after.ports()[full].park() == parked.0
        &&& wakes == match parked.1 {
            Some(task) => seq![task],
            None => Seq::<TaskId>::empty(),
        }
    } else {
        match step {
            Step::Blocked => {
                &&& after.input().pending() == pending
                &&& after.input().stalls() < before.input().stalls()
                &&& after.taken() == before.taken()
                &&& !after.finished()
                &&& after.ports() == before.ports()
                &&& wakes == Seq::<TaskId>::empty()
            },
            Step::Done => {
                &&& pending.len() == 0
                &&& after.input().pending().len() == 0
                &&& after.taken() == before.taken()
                &&& after.finished()
                &&& wakes == parked_tasks(before.ports())
                &&& forall|p: int|
                    0 <= p < before.ports().len() ==> port_closed(
                        before.ports()[p],
                        #[trigger] after.ports()[p],
                    )
            },
            Step::Progress => {
                &&& pending.len() > 0
                &&& after.input().pending() == pending.skip(1)
                &&& after.input().stalls() <= before.input().stalls()
                &&& after.taken() == before.taken().push(pending[0])
                &&& !after.finished()
                &&& wakes == parked_tasks(before.ports())
                &&& forall|p: int|
                    0 <= p < before.ports().len() ==> port_got_copy(
                        before.ports()[p],
                        pending[0],
                        #[trigger] after.ports()[p],
                    )
            },
        }
    }
}

} // verus!
