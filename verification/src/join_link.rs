//! The join link: the packets of N inputs are merged, in round-robin turns,
//! into one bounded queue.

use crate::queue::{in_valid_range, DEFAULT_QUEUE_CAPACITY, MAX_QUEUE_CAPACITY};
use crate::queue_egressor::{drain_queue, egress_pulled, port_closed, QueueEgressor};
use crate::stream::{
    lemma_undrained_decreases, lemma_undrained_no_increase, undrained, work, PacketStream, Pull,
    Step,
};
use crate::task_park::{
    die_transition, park_transition, unpark_transition, woken, TaskId, TaskParkState,
};
use vstd::multiset::Multiset;
use vstd::prelude::*;

verus! {

/// How many ports a round-robin scan that starts at port `next` visits
/// before it comes to port `port`, with `n` ports in all.
pub open spec fn ahead(next: int, port: int, n: int) -> int {
    if port >= next {
        port - next
    } else {
        port + n - next
    }
}

/// Whether a scan passed over a stream without taking a packet: the stream
/// had ended, or it was not ready and has used up a stall.
pub open spec fn skipped<S: PacketStream>(before: S, after: S) -> bool {
    &&& after.inv()
    &&& after.pending() == before.pending()
    &&& after.stalls() <= before.stalls()
    &&& before.pending().len() == 0 || after.stalls() < before.stalls()
}

/// The packets of `sent` that came from port `port`, in their order, where
/// `origin` names the port that each packet of `sent` came from.
pub open spec fn from_port<T>(sent: Seq<T>, origin: Seq<int>, port: int) -> Seq<T>
    decreases sent.len(),
{
    if sent.len() == 0 || origin.len() != sent.len() {
        Seq::empty()
    } else {
        let rest = from_port(sent.drop_last(), origin.drop_last(), port);
        if origin.last() == port {
            rest.push(sent.last())
        } else {
            rest
        }
    }
}

/// One more packet, from port `source`, adds to what came from that port and
/// from no other.
pub proof fn lemma_from_port_push<T>(
    sent: Seq<T>,
    origin: Seq<int>,
    packet: T,
    source: int,
    port: int,
)
    requires
        sent.len() == origin.len(),
    ensures
        from_port(sent.push(packet), origin.push(source), port) == if source == port {
            from_port(sent, origin, port).push(packet)
        } else {
            from_port(sent, origin, port)
        },
{
    assert(sent.push(packet).drop_last() =~= sent);
    assert(origin.push(source).drop_last() =~= origin);
}

/// What came from the first `ports` ports, taken together as a multiset.
pub open spec fn ports_union<T>(sent: Seq<T>, origin: Seq<int>, ports: nat) -> Multiset<T>
    decreases ports,
{
    if ports == 0 {
        Multiset::empty()
    } else {
        ports_union(sent, origin, (ports - 1) as nat).add(
            from_port(sent, origin, ports - 1).to_multiset(),
        )
    }
}

proof fn lemma_union_push<T>(sent: Seq<T>, origin: Seq<int>, packet: T, source: int, ports: nat)
    requires
        sent.len() == origin.len(),
    ensures
        ports_union(sent.push(packet), origin.push(source), ports) == if 0 <= source < ports {
            ports_union(sent, origin, ports).insert(packet)
        } else {
            ports_union(sent, origin, ports)
        },
    decreases ports,
{
    broadcast use vstd::multiset::group_multiset_axioms;
    broadcast use vstd::seq_lib::to_multiset_build;

    if ports > 0 {
        lemma_union_push(sent, origin, packet, source, (ports - 1) as nat);
        lemma_from_port_push(sent, origin, packet, source, ports - 1);
        let before = ports_union(sent, origin, ports);
        let after = ports_union(sent.push(packet), origin.push(source), ports);
        if 0 <= source < ports {
            assert(after =~= before.insert(packet));
        } else {
            assert(after =~= before);
        }
    }
}

proof fn lemma_union_empty<T>(ports: nat)
    ensures
        ports_union(Seq::<T>::empty(), Seq::<int>::empty(), ports) == Multiset::<T>::empty(),
    decreases ports,
{
    broadcast use vstd::multiset::group_multiset_axioms;

    if ports > 0 {
        lemma_union_empty::<T>((ports - 1) as nat);
        Seq::<T>::empty().to_multiset_ensures();
        vstd::multiset::lemma_multiset_empty_len(Seq::<T>::empty().to_multiset());
        assert(ports_union(Seq::<T>::empty(), Seq::<int>::empty(), ports) =~= Multiset::<
            T,
        >::empty());
    }
}

/// The output of a join is the disjoint union of what came from its ports:
/// where every packet of `sent` came from one of the `ports` ports, what came
/// from the ports, taken together, is `sent` as a multiset.
pub proof fn lemma_join_conserves<T>(sent: Seq<T>, origin: Seq<int>, ports: nat)
    requires
        sent.len() == origin.len(),
        forall|k: int| 0 <= k < origin.len() ==> 0 <= #[trigger] origin[k] < ports,
    ensures
        ports_union(sent, origin, ports) == sent.to_multiset(),
    decreases sent.len(),
{
    broadcast use vstd::multiset::group_multiset_axioms;
    broadcast use vstd::seq_lib::to_multiset_build;

    if sent.len() > 0 {
        let rest = sent.drop_last();
        let sources = origin.drop_last();
        assert(rest.push(sent.last()) =~= sent);
        assert(sources.push(origin.last()) =~= origin);
        assert forall|k: int| 0 <= k < sources.len() implies 0 <= #[trigger] sources[k] < ports by {
            assert(sources[k] == origin[k]);
        }
        lemma_join_conserves(rest, sources, ports);
        lemma_union_push(rest, sources, sent.last(), origin.last(), ports);
        assert(0 <= origin[origin.len() - 1] < ports);
    } else {
        assert(sent =~= Seq::<T>::empty());
        assert(origin =~= Seq::<int>::empty());
        lemma_union_empty::<T>(ports);
        Seq::<T>::empty().to_multiset_ensures();
        vstd::multiset::lemma_multiset_empty_len(Seq::<T>::empty().to_multiset());
    }
}

/// What a round-robin scan of the inputs found.
pub enum Scan<T> {
    /// A packet, and the port that gave it.
    Got(usize, T),
    /// Every input has ended.
    AllEnded,
    /// No input had a packet ready, and at least one has not ended.
    Stalled,
}

/// The relation between the inputs before a scan that starts at port `next`,
/// what it found, and the inputs after it.
///
/// The scan takes the first packet it meets. The ports it visits before that
/// are passed over; those it does not come to are left alone.
pub open spec fn scan_found<S: PacketStream>(
    before: Seq<S>,
    next: int,
    found: Scan<S::Item>,
    after: Seq<S>,
) -> bool {
    let n = before.len() as int;
    &&& after.len() == n
    &&& match found {
        Scan::Got(source, packet) => {
            &&& source < n
            &&& before[source as int].pending().len() > 0
            &&& packet == before[source as int].pending()[0]
            &&& after[source as int].inv()
            &&& after[source as int].pending() == before[source as int].pending().skip(1)
            &&& after[source as int].stalls() <= before[source as int].stalls()
            &&& forall|j: int|
                0 <= j < n && j != source ==> if ahead(next, j, n) < ahead(next, source as int, n) {
                    skipped(before[j], #[trigger] after[j])
                } else {
                    after[j] == before[j]
                }
        },
        Scan::AllEnded => forall|j: int|
            0 <= j < n ==> skipped(before[j], #[trigger] after[j]) && after[j].pending().len() == 0,
        Scan::Stalled => {
            &&& forall|j: int| 0 <= j < n ==> skipped(before[j], #[trigger] after[j])
            &&& exists|j: int| 0 <= j < n && (#[trigger] after[j]).stalls() < before[j].stalls()
        },
    }
}

/// Visits the inputs once, in round-robin order from port `next` on, and
/// takes the first packet that one of them has ready. An input that reports
/// its end is marked in `ended` and is not pulled again.
pub fn scan<S: PacketStream>(inputs: &mut Vec<S>, ended: &mut Vec<bool>, next: usize) -> (found:
    Scan<S::Item>)
    requires
        old(inputs)@.len() == old(ended)@.len(),
        next < old(inputs)@.len(),
        forall|j: int|
            0 <= j < old(inputs)@.len() ==> (#[trigger] old(inputs)@[j]).inv() && (old(ended)@[j]
                ==> old(inputs)@[j].pending().len() == 0),
    ensures
        final(ended)@.len() == old(ended)@.len(),
        forall|j: int|
            0 <= j < old(inputs)@.len() ==> (#[trigger] final(inputs)@[j]).inv()
                && (final(ended)@[j] ==> final(inputs)@[j].pending().len() == 0),
        scan_found(old(inputs)@, next as int, found, final(inputs)@),
{
    let ghost before = inputs@;
    let n = inputs.len();
    let mut stalled = false;
    let ghost mut witness: int = 0;
    let mut port: usize = next;
    let mut visited: usize = 0;
    while visited < n
        invariant
            visited <= n,
            port < n,
            next < n,
            n == inputs@.len(),
            n == ended@.len(),
            n == before.len(),
            n == old(ended)@.len(),
            before == old(inputs)@,
            visited < n ==> ahead(next as int, port as int, n as int) == visited,
            forall|j: int|
                0 <= j < n ==> (#[trigger] inputs@[j]).inv() && (ended@[j]
                    ==> inputs@[j].pending().len() == 0),
            forall|j: int|
                0 <= j < n && ahead(next as int, j, n as int) < visited ==> skipped(
                    before[j],
                    #[trigger] inputs@[j],
                ) && (!stalled ==> inputs@[j].pending().len() == 0),
            forall|j: int|
                0 <= j < n && ahead(next as int, j, n as int) >= visited ==> #[trigger] inputs@[j]
                    == before[j],
            stalled ==> 0 <= witness < n && inputs@[witness].stalls() < before[witness].stalls(),
        decreases n - visited,
    {
        let ghost now = inputs@;
        if !ended[port] {
            let pulled = inputs[port].pull();
            match pulled {
                Pull::Item(packet) => {
                    proof {
                        assert(now[port as int] == before[port as int]);
                        assert forall|j: int| 0 <= j < n && j != port implies if ahead(
                            next as int,
                            j,
                            n as int,
                        ) < ahead(next as int, port as int, n as int) {
                            skipped(before[j], #[trigger] inputs@[j])
                        } else {
                            inputs@[j] == before[j]
                        } by {
                            assert(inputs@[j] == now[j]);
                        }
                    }
                    return Scan::Got(port, packet);
                },
                Pull::End => {
                    ended.set(port, true);
                },
                Pull::NotReady => {
                    stalled = true;
                    proof {
                        witness = port as int;
                    }
                },
            }
        }
        proof {
            assert forall|j: int|
                0 <= j < n && ahead(next as int, j, n as int) < visited + 1 implies skipped(
                before[j],
                #[trigger] inputs@[j],
            ) && (!stalled ==> inputs@[j].pending().len() == 0) by {
                if j != port {
                    assert(inputs@[j] == now[j]);
                } else {
                    assert(now[j] == before[j]);
                    assert(inputs@[j].pending() =~= before[j].pending());
                }
            }
        }
        visited += 1;
        port = if port + 1 == n {
            0
        } else {
            port + 1
        };
    }
    if stalled {
        Scan::Stalled
    } else {
        Scan::AllEnded
    }
}

/// The builder of a join link.
pub struct JoinLink<S> {
    in_streams: Option<Vec<S>>,
    queue_capacity: usize,
}

impl<S> JoinLink<S> {
    #[verifier::type_invariant]
    spec fn admissible(self) -> bool {
        &&& in_valid_range(self.queue_capacity)
        &&& match self.in_streams {
            Some(streams) => 1 <= streams@.len() <= MAX_QUEUE_CAPACITY,
            None => true,
        }
    }
}

impl<S: PacketStream> JoinLink<S> {
    /// The input streams that the builder was given, if any.
    pub closed spec fn ingress(&self) -> Option<Seq<S>> {
        match self.in_streams {
            Some(streams) => Some(streams@),
            None => None,
        }
    }

    /// The capacity that the queue will have.
    pub closed spec fn capacity(&self) -> usize {
        self.queue_capacity
    }

    /// A builder without input streams, for a queue of the default capacity.
    pub fn new() -> (link: Self)
        ensures
            link.ingress().is_none(),
            link.capacity() == DEFAULT_QUEUE_CAPACITY,
    {
        JoinLink { in_streams: None, queue_capacity: DEFAULT_QUEUE_CAPACITY }
    }

    /// Sets the input streams, one per port.
    pub fn ingressors(self, in_streams: Vec<S>) -> (link: Self)
        requires
            1 <= in_streams@.len() <= MAX_QUEUE_CAPACITY,
        ensures
            link.ingress() == Some(in_streams@),
            link.capacity() == self.capacity(),
    {
        proof {
            use_type_invariant(&self);
        }
        JoinLink { in_streams: Some(in_streams), queue_capacity: self.queue_capacity }
    }

    /// Sets the capacity of the queue.
    pub fn queue_capacity(self, queue_capacity: usize) -> (link: Self)
        requires
            in_valid_range(queue_capacity),
        ensures
            link.ingress() == self.ingress(),
            link.capacity() == queue_capacity,
    {
        proof {
            use_type_invariant(&self);
        }
        JoinLink { in_streams: self.in_streams, queue_capacity }
    }

    /// Tells whether the builder has what `build_link` needs: its input
    /// streams.
    pub fn is_complete(&self) -> (complete: bool)
        ensures
            complete == self.ingress().is_some(),
    {
        self.in_streams.is_some()
    }

    /// Builds the link: the empty queue of the chosen capacity and the
    /// runnable that fills it from the input streams, starting with port 0.
    pub fn build_link(self) -> (join: JoinIngressor<S>)
        requires
            self.ingress().is_some(),
            forall|j: int|
                0 <= j < self.ingress().unwrap().len() ==> (
                #[trigger] self.ingress().unwrap()[j]).inv(),
        ensures
            join.inv(),
            !join.finished(),
            join.inputs() == self.ingress().unwrap(),
            join.next() == 0,
            join.origin() == Seq::<int>::empty(),
            join.egress().queued() == Seq::<S::Item>::empty(),
            join.egress().delivered() == Seq::<S::Item>::empty(),
            join.egress().park() == TaskParkState::Empty,
            join.egress().capacity() == self.capacity(),
    {
        proof {
            use_type_invariant(&self);
        }
        let input_streams = self.in_streams.unwrap();
        let n = input_streams.len();
        let mut ended: Vec<bool> = Vec::new();
        let mut port: usize = 0;
        while port < n
            invariant
                port <= n,
                n == input_streams@.len(),
                1 <= n <= MAX_QUEUE_CAPACITY,
                input_streams@ == self.ingress().unwrap(),
                ended@.len() == port,
                forall|j: int| 0 <= j < port ==> !(#[trigger] ended@[j]),
            decreases n - port,
        {
            ended.push(false);
            port += 1;
        }
        let to_egressor = QueueEgressor::new(self.queue_capacity);
        assert(to_egressor.sent() =~= Seq::<S::Item>::empty());
        JoinIngressor {
            input_streams,
            ended,
            to_egressor,
            next: 0,
            finished: false,
            origin: Ghost(Seq::empty()),
        }
    }
}

/// The runnable of a join link together with its queue.
///
/// `step` and `poll` are the producer's turns; `pull` is the consumer end of
/// the queue.
pub struct JoinIngressor<S: PacketStream> {
    input_streams: Vec<S>,
    ended: Vec<bool>,
    to_egressor: QueueEgressor<S::Item>,
    next: usize,
    finished: bool,
    origin: Ghost<Seq<int>>,
}

impl<S: PacketStream> JoinIngressor<S> {
    /// The input streams as they now stand, one per port.
    pub closed spec fn inputs(&self) -> Seq<S> {
        self.input_streams@
    }

    /// For each port, whether its input has reported its end.
    pub closed spec fn ended(&self) -> Seq<bool> {
        self.ended@
    }

    /// The queue with its park.
    pub closed spec fn egress(&self) -> QueueEgressor<S::Item> {
        self.to_egressor
    }

    /// The port at which the next scan starts.
    pub closed spec fn next(&self) -> usize {
        self.next
    }

    /// For each packet that was sent into the queue, the port it came from.
    pub closed spec fn origin(&self) -> Seq<int> {
        self.origin@
    }

    /// Whether the producer has terminated.
    pub closed spec fn finished(&self) -> bool {
        self.finished
    }

    /// The packets that were sent into the queue from port `port`, in order.
    pub open spec fn taken(&self, port: int) -> Seq<S::Item> {
        from_port(self.egress().sent(), self.origin(), port)
    }

    /// Every packet in the queue's record came from one of the ports; an
    /// input that was marked as ended has nothing left; once the producer has
    /// terminated the park is dead.
    pub open spec fn inv(&self) -> bool {
        &&& 1 <= self.inputs().len() <= MAX_QUEUE_CAPACITY
        &&& self.ended().len() == self.inputs().len()
        &&& self.next() < self.inputs().len()
        &&& forall|j: int|
            0 <= j < self.inputs().len() ==> (#[trigger] self.inputs()[j]).inv() && (
            self.ended()[j] ==> self.inputs()[j].pending().len() == 0)
        &&& self.egress().inv()
        &&& self.origin().len() == self.egress().sent().len()
        &&& forall|k: int|
            0 <= k < self.origin().len() ==> 0 <= #[trigger] self.origin()[k] < self.inputs().len()
        &&& self.finished() ==> self.egress().park() == TaskParkState::Dead
    }

    /// The output is the disjoint union of what was taken from the ports:
    /// all that was ever sent into the queue is, as a multiset, what was
    /// taken from each port, taken together.
    pub proof fn lemma_output_is_union(self)
        requires
            self.inv(),
        ensures
            ports_union(self.egress().sent(), self.origin(), self.inputs().len())
                == self.egress().sent().to_multiset(),
    {
        lemma_join_conserves(self.egress().sent(), self.origin(), self.inputs().len());
    }

    /// The number of input ports.
    pub fn num_ports(&self) -> (n: usize)
        ensures
            n == self.inputs().len(),
    {
        self.input_streams.len()
    }

    /// Tells whether the producer has terminated.
    pub fn is_finished(&self) -> (finished: bool)
        ensures
            finished == self.finished(),
    {
        self.finished
    }

    /// One turn of the producer on behalf of task `me`. Returns the outcome
    /// and the task to notify.
    ///
    /// Where the queue is full, the task parks and no input is pulled.
    /// Otherwise the inputs are scanned once in round-robin order: the first
    /// packet met is sent and a wake-up raised, and the next scan starts
    /// behind its port. Where every input has ended the park dies; where
    /// none had a packet ready the producer is blocked.
    pub fn step(&mut self, me: TaskId) -> (out: (Step, Option<TaskId>))
        requires
            old(self).inv(),
        ensures
            final(self).inv(),
            final(self).inputs().len() == old(self).inputs().len(),
            join_stepped(*old(self), me, out.0, out.1, *final(self)),
    {
        if self.finished {
            return (Step::Done, None);
        }
        if self.to_egressor.is_full() {
            let wake = self.to_egressor.park_producer(me);
            return (Step::Blocked, wake);
        }
        let found = scan(&mut self.input_streams, &mut self.ended, self.next);
        match found {
            Scan::Got(source, packet) => {
                let ghost sent = self.to_egressor.sent();
                let wake = self.to_egressor.send(packet);
                let n = self.input_streams.len();
                self.next = if source + 1 == n {
                    0
                } else {
                    source + 1
                };
                proof {
                    self.origin@ = self.origin@.push(source as int);
                    assert(self.to_egressor.sent() =~= sent.push(packet));
                }
                (Step::Progress, wake)
            },
            Scan::AllEnded => {
                let wake = self.to_egressor.close();
                self.finished = true;
                (Step::Done, wake)
            },
            Scan::Stalled => (Step::Blocked, None),
        }
    }

    /// The producer's turns for task `me`, one after the other, until it is
    /// blocked or done. Returns the outcome and the tasks to notify.
    ///
    /// Nothing is lost or made up: for each port, what was taken from it and
    /// what it has still pending make up the same input as before. The
    /// producer is blocked on the full queue, where it is parked or was told
    /// to come back, or on its inputs, one of which has used up a stall.
    pub fn poll(&mut self, me: TaskId) -> (out: (Step, Vec<TaskId>))
        requires
            old(self).inv(),
        ensures
            final(self).inv(),
            final(self).inputs().len() == old(self).inputs().len(),
            out.0 != Step::Progress,
            forall|j: int|
                0 <= j < old(self).inputs().len() ==> final(self).taken(j)
                    + (#[trigger] final(self).inputs()[j]).pending() == old(self).taken(j)
                    + old(self).inputs()[j].pending(),
            final(self).egress().delivered() == old(self).egress().delivered(),
            out.0 == Step::Done ==> final(self).finished() && (old(self).finished() || forall|
                j: int,
            |
                0 <= j < old(self).inputs().len() ==> (
                #[trigger] final(self).inputs()[j]).pending().len() == 0),
            join_polled(*old(self), me, out.0, out.1@, *final(self)),
            out.0 == Step::Blocked ==> !final(self).finished() && ((final(self).egress().full() && (
            final(self).egress().park() == TaskParkState::Parked(me) || out.1@.contains(me)))
                || undrained(final(self).inputs()) < undrained(old(self).inputs())),
    {
        let mut wakes: Vec<TaskId> = Vec::new();
        proof {
            assert forall|o: Step, w: Seq<TaskId>, a: Self| #[trigger]
                join_polled(*self, me, o, w, a) implies join_polled(
                *old(self),
                me,
                o,
                wakes@ + w,
                a,
            ) by {
                assert(wakes@ + w =~= w);
            }
        }
        loop
            invariant
                self.inv(),
                forall|o: Step, w: Seq<TaskId>, a: Self| #[trigger]
                    join_polled(*self, me, o, w, a) ==> join_polled(
                        *old(self),
                        me,
                        o,
                        wakes@ + w,
                        a,
                    ),
                self.inputs().len() == old(self).inputs().len(),
                forall|j: int|
                    0 <= j < old(self).inputs().len() ==> self.taken(j)
                        + (#[trigger] self.inputs()[j]).pending() == old(self).taken(j)
                        + old(self).inputs()[j].pending(),
                self.egress().delivered() == old(self).egress().delivered(),
                self.finished() == old(self).finished(),
                undrained(self.inputs()) <= undrained(old(self).inputs()),
            decreases undrained(self.inputs()),
        {
            let ghost before = *self;
            let ghost notified = wakes@;
            let (step, wake) = self.step(me);
            match wake {
                Some(task) => {
                    wakes.push(task);
                    assert(wakes@[wakes@.len() - 1] == task);
                },
                None => {},
            }
            proof {
                lemma_step_conserves(before, me, step, wake, *self);
                let added = woken(wake);
                assert(wakes@ =~= notified + added);
                if step == Step::Progress {
                    assert forall|o: Step, w: Seq<TaskId>, a: Self| #[trigger]
                        join_polled(*self, me, o, w, a) implies join_polled(
                        *old(self),
                        me,
                        o,
                        wakes@ + w,
                        a,
                    ) by {
                        let all = added + w;
                        assert(all.take(added.len() as int) =~= added);
                        assert(all.skip(added.len() as int) =~= w);
                        assert(join_polled(before, me, o, all, a));
                        assert(notified + all =~= wakes@ + w);
                    }
                } else {
                    assert(join_polled(before, me, step, added, *self));
                }
            }
            match step {
                Step::Progress => {},
                _ => {
                    return (step, wakes);
                },
            }
        }
    }

    /// The consumer end of the queue, pulled by task `me`. Returns the
    /// outcome and the task to notify.
    pub fn pull(&mut self, me: TaskId) -> (out: (Pull<S::Item>, Option<TaskId>))
        requires
            old(self).inv(),
        ensures
            final(self).inv(),
            final(self).inputs() == old(self).inputs(),
            final(self).ended() == old(self).ended(),
            final(self).next() == old(self).next(),
            final(self).origin() == old(self).origin(),
            final(self).finished() == old(self).finished(),
            final(self).egress().sent() == old(self).egress().sent(),
            egress_pulled(old(self).egress(), me, out.0, out.1, final(self).egress()),
    {
        self.to_egressor.pull(me)
    }

    /// Ends the producer before its inputs have ended: the park dies, so
    /// that the consumer sees the end once the queue is empty. Returns the
    /// task to release.
    pub fn shutdown(&mut self) -> (wake: Option<TaskId>)
        requires
            old(self).inv(),
        ensures
            final(self).inv(),
            final(self).finished(),
            final(self).inputs() == old(self).inputs(),
            final(self).origin() == old(self).origin(),
            port_closed(old(self).egress(), final(self).egress()),
            wake == die_transition(old(self).egress().park()).1,
    {
        let wake = self.to_egressor.close();
        self.finished = true;
        assert(self.to_egressor.sent() =~= old(self).to_egressor.sent());
        wake
    }

    /// Runs the link to its end: the producer and the consumer take turns
    /// until every input has ended and the queue is empty. Returns the
    /// packets that the consumer pulled in the course of this.
    ///
    /// The output then holds, for each port, exactly the packets of that
    /// port's input, in their order, and the run ends whatever the inputs'
    /// stalls.
    pub fn run(&mut self) -> (results: Vec<S::Item>)
        requires
            old(self).inv(),
        ensures
            final(self).inv(),
            final(self).finished(),
            final(self).inputs().len() == old(self).inputs().len(),
            final(self).egress().queued().len() == 0,
            final(self).egress().delivered() == old(self).egress().delivered() + results@,
            !old(self).finished() ==> forall|j: int|
                0 <= j < old(self).inputs().len() ==> {
                    &&& (#[trigger] final(self).inputs()[j]).pending().len() == 0
                    &&& final(self).taken(j) == old(self).taken(j) + old(self).inputs()[j].pending()
                },
    {
        let mut results: Vec<S::Item> = Vec::new();
        assert(old(self).egress().delivered() + results@ =~= old(self).egress().delivered());
        loop
            invariant
                self.inv(),
                self.inputs().len() == old(self).inputs().len(),
                forall|j: int|
                    0 <= j < old(self).inputs().len() ==> self.taken(j)
                        + (#[trigger] self.inputs()[j]).pending() == old(self).taken(j)
                        + old(self).inputs()[j].pending(),
                self.egress().delivered() == old(self).egress().delivered() + results@,
                self.finished() == old(self).finished(),
            decreases undrained(self.inputs()),
        {
            let ghost got = results@;
            let ghost queued = self.egress().queued();
            drain_queue(&mut self.to_egressor, 1, &mut results);
            proof {
                let delivered = old(self).egress().delivered();
                assert(delivered + (got + queued) =~= (delivered + got) + queued);
                self.egress().lemma_capacity();
            }
            let ghost before = *self;
            let (step, wake) = self.step(0);
            proof {
                lemma_step_conserves(before, 0, step, wake, *self);
            }
            match step {
                Step::Done => {
                    let ghost got = results@;
                    let ghost queued = self.egress().queued();
                    drain_queue(&mut self.to_egressor, 1, &mut results);
                    proof {
                        let delivered = old(self).egress().delivered();
                        assert(delivered + (got + queued) =~= (delivered + got) + queued);
                        if !old(self).finished() {
                            assert forall|j: int| 0 <= j < old(self).inputs().len() implies {
                                &&& (#[trigger] self.inputs()[j]).pending().len() == 0
                                &&& self.taken(j) == old(self).taken(j)
                                    + old(self).inputs()[j].pending()
                            } by {
                                assert(self.taken(j) + self.inputs()[j].pending() =~= self.taken(
                                    j,
                                ));
                            }
                        }
                    }
                    return results;
                },
                _ => {},
            }
        }
    }
}

/// A turn of the producer loses and makes up nothing: for each port, what
/// was taken from it and what it has still pending make up the same input as
/// before. A turn that is not held up by the full queue and is not the last
/// leaves less work in the inputs.
pub proof fn lemma_step_conserves<S: PacketStream>(
    before: JoinIngressor<S>,
    me: TaskId,
    step: Step,
    wake: Option<TaskId>,
    after: JoinIngressor<S>,
)
    requires
        before.inv(),
        after.inv(),
        after.inputs().len() == before.inputs().len(),
        join_stepped(before, me, step, wake, after),
    ensures
        forall|j: int|
            0 <= j < before.inputs().len() ==> after.taken(j) + (
            #[trigger] after.inputs()[j]).pending() == before.taken(j)
                + before.inputs()[j].pending(),
        after.egress().delivered() == before.egress().delivered(),
        undrained(after.inputs()) <= undrained(before.inputs()),
        step == Step::Progress ==> undrained(after.inputs()) < undrained(before.inputs()),
        step == Step::Blocked && !before.egress().full() ==> undrained(after.inputs()) < undrained(
            before.inputs(),
        ),
        step == Step::Blocked && before.egress().full() ==> after.egress().full() && (
        after.egress().park() == TaskParkState::Parked(me) || wake == Some(me)),
        step == Step::Done ==> after.finished() && (before.finished() || forall|j: int|
            0 <= j < before.inputs().len() ==> (#[trigger] after.inputs()[j]).pending().len() == 0),
        step != Step::Done ==> !after.finished() && !before.finished(),
        after.finished() == before.finished() || step == Step::Done,
{
    let n = before.inputs().len() as int;
    if before.finished() {
        lemma_undrained_no_increase(before.inputs(), after.inputs());
    } else if before.egress().full() {
        lemma_undrained_no_increase(before.inputs(), after.inputs());
        assert(after.egress().sent() =~= before.egress().sent());
    } else {
        match step {
            Step::Progress => {
                let source = after.origin().last();
                let packet = after.egress().queued().last();
                assert(after.egress().sent() =~= before.egress().sent().push(packet));
                assert forall|j: int| 0 <= j < n implies after.taken(j) + (
                #[trigger] after.inputs()[j]).pending() == before.taken(j)
                    + before.inputs()[j].pending() by {
                    lemma_from_port_push(
                        before.egress().sent(),
                        before.origin(),
                        packet,
                        source,
                        j,
                    );
                    if j == source {
                        assert(before.taken(j).push(packet) + before.inputs()[j].pending().skip(1)
                            =~= before.taken(j) + before.inputs()[j].pending());
                    }
                }
                assert forall|j: int| 0 <= j < n implies work(#[trigger] after.inputs()[j])
                    <= work(before.inputs()[j]) by {}
                lemma_undrained_decreases(before.inputs(), after.inputs(), source);
            },
            Step::Blocked => {
                let stalled = choose|j: int|
                    0 <= j < n && (#[trigger] after.inputs()[j]).stalls()
                        < before.inputs()[j].stalls();
                assert forall|j: int| 0 <= j < n implies work(#[trigger] after.inputs()[j])
                    <= work(before.inputs()[j]) by {}
                lemma_undrained_decreases(before.inputs(), after.inputs(), stalled);
            },
            Step::Done => {
                assert forall|j: int| 0 <= j < n implies work(#[trigger] after.inputs()[j])
                    <= work(before.inputs()[j]) by {}
                lemma_undrained_no_increase(before.inputs(), after.inputs());
                assert(after.egress().sent() =~= before.egress().sent());
            },
        }
    }
}

/// The relation between a join link before its producer, task `me`, is
/// polled, the outcome, the tasks to notify, and the link after the poll:
/// the producer takes its turns one after the other, as long as they make
/// progress, and the tasks that the turns name are notified in that order.
pub open spec fn join_polled<S: PacketStream>(
    before: JoinIngressor<S>,
    me: TaskId,
    out: Step,
    wakes: Seq<TaskId>,
    after: JoinIngressor<S>,
) -> bool
    decreases undrained(before.inputs()),
{
    exists|step: Step, wake: Option<TaskId>, mid: JoinIngressor<S>|
        #[trigger] join_stepped(before, me, step, wake, mid) && if step == Step::Progress {
            &&& woken(wake).len() <= wakes.len()
            &&& wakes.take(woken(wake).len() as int) == woken(wake)
            &&& undrained(mid.inputs()) < undrained(before.inputs())
            &&& join_polled(mid, me, out, wakes.skip(woken(wake).len() as int), after)
        } else {
            &&& out == step
            &&& wakes == woken(wake)
            &&& after == mid
        }
}

/// The relation between a join link before one turn of its producer for
/// task `me`, the outcome, the task to notify, and the link after the turn.
pub open spec fn join_stepped<S: PacketStream>(
    before: JoinIngressor<S>,
    me: TaskId,
    step: Step,
    wake: Option<TaskId>,
    after: JoinIngressor<S>,
) -> bool {
    let n = before.inputs().len() as int;
    if before.finished() {
        &&& step == Step::Done
        &&& wake == None::<TaskId>
        &&& after == before
    } else if before.egress().full() {
        &&& step == Step::Blocked
        &&& !after.finished()
        &&& after.inputs() == before.inputs()
        &&& after.origin() == before.origin()
        &&& after.next() == before.next()
        &&& after.egress().queued() == before.egress().queued()
        &&& after.egress().delivered() == before.egress().delivered()
        &&& after.egress().capacity() == before.egress().capacity()
        &&& (after.egress().park(), wake) == park_transition(before.egress().park(), me)
    } else {
        match step {
            Step::Progress => {
                let source = after.origin().last();
                let packet = after.egress().queued().last();
                &&& !after.finished()
                &&& 0 <= source < n
                &&& after.origin() == before.origin().push(source)
                &&& scan_found(
                    before.inputs(),
                    before.next() as int,
                    Scan::Got(source as usize, packet),
                    after.inputs(),
                )
                &&& after.next() == if source + 1 == n {
                    0
                } else {
                    source + 1
                }
                &&& after.egress().queued() == before.egress().queued().push(packet)
                &&& after.egress().delivered() == before.egress().delivered()
                &&& after.egress().capacity() == before.egress().capacity()
                &&& (after.egress().park(), wake) == unpark_transition(before.egress().park())
            },
            Step::Done => {
                &&& after.finished()
                &&& scan_found(before.inputs(), before.next() as int, Scan::AllEnded, after.inputs())
                &&& after.origin() == before.origin()
                &&& port_closed(before.egress(), after.egress())
                &&& wake == die_transition(before.egress().park()).1
            },
            Step::Blocked => {
                &&& !after.finished()
                &&& scan_found(before.inputs(), before.next() as int, Scan::Stalled, after.inputs())
                &&& after.origin() == before.origin()
                &&& after.next() == before.next()
                &&& after.egress() == before.egress()
                &&& wake == None::<TaskId>
            },
        }
    }
}

} // verus!
