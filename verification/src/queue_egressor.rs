//! One bounded queue with its task park: the producer end fills it, the
//! consumer end is the egress stream that a downstream link pulls.

use crate::queue::BoundedQueue;
use crate::stream::Pull;
use crate::task_park::{
    die_and_notify, die_transition, park_and_notify, park_transition, unpark_and_notify,
    unpark_transition, TaskId, TaskPark, TaskParkState,
};
use vstd::prelude::*;

verus! {

/// A bounded queue, the park that its two ends share, and the record of what
/// the consumer has taken so far.
pub struct QueueEgressor<T> {
    queue: BoundedQueue<T>,
    task_park: TaskPark,
    delivered: Ghost<Seq<T>>,
}

impl<T> QueueEgressor<T> {
    /// The packets that wait in the queue, oldest first.
    pub closed spec fn queued(&self) -> Seq<T> {
        self.queue@
    }

    /// The packets that the consumer has pulled so far, in order.
    pub closed spec fn delivered(&self) -> Seq<T> {
        self.delivered@
    }

    /// Every packet that was ever sent into the queue, in order.
    pub open spec fn sent(&self) -> Seq<T> {
        self.delivered() + self.queued()
    }

    /// The state of the park.
    pub closed spec fn park(&self) -> TaskParkState {
        self.task_park@
    }

    /// The capacity of the queue.
    pub closed spec fn capacity(&self) -> usize {
        self.queue.capacity()
    }

    /// Whether the queue can take no further packet.
    pub open spec fn full(&self) -> bool {
        self.queued().len() >= self.capacity()
    }

    /// The queue holds no more than its capacity.
    pub closed spec fn inv(&self) -> bool {
        self.queue.inv()
    }

    /// A valid port has room for at least one packet.
    pub proof fn lemma_capacity(self)
        requires
            self.inv(),
        ensures
            1 <= self.capacity() <= 1000,
            self.queued().len() <= self.capacity(),
    {
    }

    /// An empty queue of the given capacity with an empty park.
    pub fn new(capacity: usize) -> (egressor: Self)
        requires
            1 <= capacity <= 1000,
        ensures
            egressor.inv(),
            egressor.queued() == Seq::<T>::empty(),
            egressor.delivered() == Seq::<T>::empty(),
            egressor.park() == TaskParkState::Empty,
            egressor.capacity() == capacity,
    {
        QueueEgressor {
            queue: BoundedQueue::new(capacity),
            task_park: TaskPark::new(),
            delivered: Ghost(Seq::empty()),
        }
    }

    /// Tells whether the queue is full.
    pub fn is_full(&self) -> (full: bool)
        requires
            self.inv(),
        ensures
            full == self.full(),
            !full ==> self.queued().len() < self.capacity(),
            self.capacity() >= 1,
    {
        self.queue.is_full()
    }

    /// Tells whether the producer end has terminated.
    pub fn is_dead(&self) -> (dead: bool)
        ensures
            dead == (self.park() == TaskParkState::Dead),
    {
        self.task_park.is_dead()
    }

    /// The number of packets that wait in the queue.
    pub fn len(&self) -> (n: usize)
        ensures
            n == self.queued().len(),
    {
        self.queue.len()
    }

    /// The consumer end: takes the oldest packet and raises a wake-up for the
    /// producer; on an empty queue parks task `me`, or reports the end when
    /// the producer is dead. The second component is the task to notify.
    pub fn pull(&mut self, me: TaskId) -> (out: (Pull<T>, Option<TaskId>))
        requires
            old(self).inv(),
        ensures
            final(self).inv(),
            final(self).capacity() == old(self).capacity(),
            final(self).sent() == old(self).sent(),
            egress_pulled(*old(self), me, out.0, out.1, *final(self)),
    {
        match self.queue.try_recv() {
            Some(packet) => {
                proof {
                    self.delivered@ = self.delivered@.push(packet);
                    assert(self.delivered@ + self.queue@ =~= old(self).delivered@
                        + old(self).queue@);
                }
                let wake = unpark_and_notify(&mut self.task_park);
                (Pull::Item(packet), wake)
            },
            None => {
                if self.task_park.is_dead() {
                    (Pull::End, None)
                } else {
                    let wake = park_and_notify(&mut self.task_park, me);
                    (Pull::NotReady, wake)
                }
            },
        }
    }

    /// The producer end: appends `packet` and raises a wake-up for the
    /// consumer. Returns the task to notify.
    pub fn send(&mut self, packet: T) -> (wake: Option<TaskId>)
        requires
            old(self).inv(),
            !old(self).full(),
        ensures
            final(self).inv(),
            final(self).capacity() == old(self).capacity(),
            final(self).queued() == old(self).queued().push(packet),
            final(self).delivered() == old(self).delivered(),
            (final(self).park(), wake) == unpark_transition(old(self).park()),
    {
        self.queue.send(packet);
        unpark_and_notify(&mut self.task_park)
    }

    /// The producer end: parks task `me` until the consumer makes room.
    /// Returns the task to notify.
    pub fn park_producer(&mut self, me: TaskId) -> (wake: Option<TaskId>)
        ensures
            final(self).inv() == old(self).inv(),
            final(self).capacity() == old(self).capacity(),
            final(self).queued() == old(self).queued(),
            final(self).delivered() == old(self).delivered(),
            (final(self).park(), wake) == park_transition(old(self).park(), me),
    {
        park_and_notify(&mut self.task_park, me)
    }

    /// The producer end: marks the park dead, so that the consumer sees the
    /// end once the queue is empty. Returns the task to release.
    pub fn close(&mut self) -> (wake: Option<TaskId>)
        ensures
            final(self).inv() == old(self).inv(),
            final(self).capacity() == old(self).capacity(),
            final(self).queued() == old(self).queued(),
            final(self).delivered() == old(self).delivered(),
            (final(self).park(), wake) == die_transition(old(self).park()),
    {
        die_and_notify(&mut self.task_park)
    }
}

/// The relation between a port before its consumer, task `me`, pulls, the
/// outcome, the task to notify, and the port after the pull.
///
/// A waiting packet is handed out and a wake-up raised for the producer. On
/// an empty queue the end is reported where the producer is dead, and
/// otherwise the consumer parks.
pub open spec fn egress_pulled<T>(
    before: QueueEgressor<T>,
    me: TaskId,
    pull: Pull<T>,
    wake: Option<TaskId>,
    after: QueueEgressor<T>,
) -> bool {
    &&& after.capacity() == before.capacity()
    &&& if before.queued().len() > 0 {
        &&& pull == Pull::Item(before.queued()[0])
        &&& after.queued() == before.queued().skip(1)
        &&& after.delivered() == before.delivered().push(before.queued()[0])
        &&& (after.park(), wake) == unpark_transition(before.park())
    } else if before.park() == TaskParkState::Dead {
        &&& pull == Pull::<T>::End
        &&& wake == None::<TaskId>
        &&& after.queued() == before.queued()
        &&& after.delivered() == before.delivered()
        &&& after.park() == TaskParkState::Dead
    } else {
        &&& pull == Pull::<T>::NotReady
        &&& after.queued() == before.queued()
        &&& after.delivered() == before.delivered()
        &&& (after.park(), wake) == park_transition(before.park(), me)
    }
}

/// No wake-up is lost on a full queue: where the producer is parked on a
/// full queue, the consumer's next pull takes a packet, makes room, and
/// names the producer as the task to notify.
pub proof fn lemma_parked_producer_is_woken<T>(
    before: QueueEgressor<T>,
    producer: TaskId,
    consumer: TaskId,
    pull: Pull<T>,
    wake: Option<TaskId>,
    after: QueueEgressor<T>,
)
    requires
        before.inv(),
        before.full(),
        before.park() == TaskParkState::Parked(producer),
        egress_pulled(before, consumer, pull, wake, after),
    ensures
        pull == Pull::Item(before.queued()[0]),
        wake == Some(producer),
        !after.full(),
        after.park() == TaskParkState::Empty,
{
    before.lemma_capacity();
}

/// No wake-up is lost on an empty queue: a consumer that pulls an empty
/// queue of a live producer is parked, or is told at once to come back; the
/// end is reported exactly when the queue is empty and the producer dead.
pub proof fn lemma_consumer_parks_or_ends<T>(
    before: QueueEgressor<T>,
    consumer: TaskId,
    pull: Pull<T>,
    wake: Option<TaskId>,
    after: QueueEgressor<T>,
)
    requires
        egress_pulled(before, consumer, pull, wake, after),
    ensures
        pull == Pull::<T>::End <==> before.queued().len() == 0 && before.park()
            == TaskParkState::Dead,
        pull == Pull::<T>::NotReady ==> after.park() == TaskParkState::Parked(consumer) || wake
            == Some(consumer),
        pull == Pull::<T>::NotReady ==> unpark_transition(after.park()).1 == Some(consumer)
            || wake == Some(consumer),
{
}

/// The search for a full port from `from` on finds a full port, the first
/// one there is, or none.
pub proof fn lemma_first_full<T>(ports: Seq<QueueEgressor<T>>, from: int)
    requires
        0 <= from <= ports.len(),
    ensures
        from <= first_full(ports, from) <= ports.len(),
        first_full(ports, from) < ports.len() ==> ports[first_full(ports, from)].full(),
        forall|p: int| from <= p < first_full(ports, from) ==> !(#[trigger] ports[p]).full(),
    decreases ports.len() - from,
{
    if from < ports.len() && !ports[from].full() {
        lemma_first_full(ports, from + 1);
    }
}

/// No port's queue is full: the search for a full one finds none.
pub proof fn lemma_none_full<T>(ports: Seq<QueueEgressor<T>>, from: int)
    requires
        0 <= from <= ports.len(),
        forall|p: int| 0 <= p < ports.len() ==> !(#[trigger] ports[p]).full(),
    ensures
        first_full(ports, from) == ports.len(),
    decreases ports.len() - from,
{
    if from < ports.len() {
        lemma_none_full(ports, from + 1);
    }
}

/// The first port at or after `from` whose queue is full, or the number of
/// ports where none is.
pub open spec fn first_full<T>(ports: Seq<QueueEgressor<T>>, from: int) -> int
    decreases ports.len() - from,
{
    if from < 0 || from >= ports.len() {
        ports.len() as int
    } else if ports[from].full() {
        from
    } else {
        first_full(ports, from + 1)
    }
}

/// The tasks that are parked on the ports, in port order.
pub open spec fn parked_tasks<T>(ports: Seq<QueueEgressor<T>>) -> Seq<TaskId>
    decreases ports.len(),
{
    if ports.len() == 0 {
        Seq::empty()
    } else {
        let rest = parked_tasks(ports.drop_last());
        match ports.last().park() {
            TaskParkState::Parked(task) => rest.push(task),
            _ => rest,
        }
    }
}

/// Whether `after` is the port `before` with its park dead and nothing else
/// changed.
pub open spec fn port_closed<T>(before: QueueEgressor<T>, after: QueueEgressor<T>) -> bool {
    &&& after.inv() == before.inv()
    &&& after.queued() == before.queued()
    &&& after.delivered() == before.delivered()
    &&& after.capacity() == before.capacity()
    &&& after.park() == TaskParkState::Dead
}

/// Whether `after` is the port `before` with one more packet at the back of
/// its queue, a clone of `packet`, and a wake-up raised on its park.
pub open spec fn port_got_copy<T: Clone>(
    before: QueueEgressor<T>,
    packet: T,
    after: QueueEgressor<T>,
) -> bool {
    &&& after.inv()
    &&& after.queued().len() == before.queued().len() + 1
    &&& after.queued().drop_last() == before.queued()
    &&& cloned(packet, after.queued().last())
    &&& after.delivered() == before.delivered()
    &&& after.capacity() == before.capacity()
    &&& after.park() == unpark_transition(before.park()).0
}

/// Whether `copy` holds, place for place, a clone of each packet of
/// `packets`.
pub open spec fn copies<T: Clone>(packets: Seq<T>, copy: Seq<T>) -> bool {
    &&& packets.len() == copy.len()
    &&& forall|i: int| 0 <= i < packets.len() ==> cloned(packets[i], #[trigger] copy[i])
}

/// A port that held copies of `taken` and got a copy of `packet` holds copies
/// of `taken` followed by `packet`.
pub proof fn lemma_copy_extends<T: Clone>(
    taken: Seq<T>,
    before: QueueEgressor<T>,
    packet: T,
    after: QueueEgressor<T>,
)
    requires
        copies(taken, before.sent()),
        port_got_copy(before, packet, after),
    ensures
        copies(taken.push(packet), after.sent()),
        after.sent() == before.sent().push(after.queued().last()),
{
    assert(after.queued() =~= before.queued().push(after.queued().last()));
    assert(after.sent() =~= before.sent().push(after.queued().last()));
}

/// Finds the first port whose queue is full; the number of ports where none
/// is.
pub fn first_full_port<T>(ports: &Vec<QueueEgressor<T>>) -> (port: usize)
    requires
        forall|p: int| 0 <= p < ports@.len() ==> (#[trigger] ports@[p]).inv(),
    ensures
        port == first_full(ports@, 0),
        port <= ports@.len(),
        port < ports@.len() ==> ports@[port as int].full(),
        forall|p: int| 0 <= p < port ==> !(#[trigger] ports@[p]).full(),
{
    let n = ports.len();
    let mut port: usize = 0;
    while port < n
        invariant
            port <= n,
            n == ports@.len(),
            forall|p: int| 0 <= p < ports@.len() ==> (#[trigger] ports@[p]).inv(),
            forall|p: int| 0 <= p < port ==> !(#[trigger] ports@[p]).full(),
            first_full(ports@, 0) == first_full(ports@, port as int),
        decreases n - port,
    {
        if ports[port].is_full() {
            return port;
        }
        port += 1;
    }
    port
}

/// Marks the park of every port dead. Returns the tasks to release, in port
/// order.
pub fn close_all<T>(ports: &mut Vec<QueueEgressor<T>>) -> (wakes: Vec<TaskId>)
    ensures
        final(ports)@.len() == old(ports)@.len(),
        forall|p: int|
            0 <= p < old(ports)@.len() ==> port_closed(old(ports)@[p], #[trigger] final(ports)@[p]),
        wakes@ == parked_tasks(old(ports)@),
{
    let ghost before = ports@;
    let n = ports.len();
    let mut wakes: Vec<TaskId> = Vec::new();
    let mut port: usize = 0;
    while port < n
        invariant
            port <= n,
            n == ports@.len(),
            n == before.len(),
            wakes@ == parked_tasks(before.take(port as int)),
            forall|p: int| 0 <= p < port ==> port_closed(before[p], #[trigger] ports@[p]),
            forall|p: int| port <= p < n ==> ports@[p] == before[p],
        decreases n - port,
    {
        let wake = ports[port].close();
        match wake {
            Some(task) => {
                wakes.push(task);
            },
            None => {},
        }
        proof {
            assert(before.take(port + 1).drop_last() =~= before.take(port as int));
        }
        port += 1;
    }
    proof {
        assert(before.take(n as int) =~= before);
    }
    wakes
}

/// Sends a clone of `packet` to every port and raises a wake-up on each.
/// Returns the tasks to notify, in port order.
pub fn send_to_all<T: Clone>(ports: &mut Vec<QueueEgressor<T>>, packet: T) -> (wakes: Vec<TaskId>)
    requires
        forall|p: int|
            0 <= p < old(ports)@.len() ==> (#[trigger] old(ports)@[p]).inv() && !old(ports)@[p].full(),
    ensures
        final(ports)@.len() == old(ports)@.len(),
        forall|p: int|
            0 <= p < old(ports)@.len() ==> port_got_copy(
                old(ports)@[p],
                packet,
                #[trigger] final(ports)@[p],
            ),
        wakes@ == parked_tasks(old(ports)@),
{
    let ghost before = ports@;
    let n = ports.len();
    let mut wakes: Vec<TaskId> = Vec::new();
    let mut port: usize = 0;
    while port < n
        invariant
            port <= n,
            n == ports@.len(),
            n == before.len(),
            wakes@ == parked_tasks(before.take(port as int)),
            forall|p: int| 0 <= p < port ==> port_got_copy(before[p], packet, #[trigger] ports@[p]),
            forall|p: int| port <= p < n ==> ports@[p] == before[p],
            forall|p: int| 0 <= p < n ==> (#[trigger] before[p]).inv() && !before[p].full(),
        decreases n - port,
    {
        let copy = packet.clone();
        let ghost queued = ports@[port as int].queued();
        assert(before[port as int].inv() && ports@[port as int] == before[port as int]);
        let wake = ports[port].send(copy);
        match wake {
            Some(task) => {
                wakes.push(task);
            },
            None => {},
        }
        proof {
            assert(before.take(port + 1).drop_last() =~= before.take(port as int));
            assert(queued.push(copy).drop_last() =~= queued);
        }
        port += 1;
    }
    proof {
        assert(before.take(n as int) =~= before);
    }
    wakes
}

/// Whether the producer, task `me`, is held up by a full port on which it
/// is parked, or from which it was told at once to come back.
pub open spec fn blocked_on_full<T>(
    ports: Seq<QueueEgressor<T>>,
    me: TaskId,
    wakes: Seq<TaskId>,
) -> bool {
    exists|full: int|
        0 <= full < ports.len() && (#[trigger] ports[full]).full() && (ports[full].park()
            == TaskParkState::Parked(me) || wakes.contains(me))
}

/// Whether `results` holds, for each port, what its consumer has pulled
/// since the port had delivered `base`.
pub open spec fn collected<T>(
    base: Seq<Seq<T>>,
    results: Seq<Vec<T>>,
    ports: Seq<QueueEgressor<T>>,
) -> bool {
    &&& base.len() == ports.len()
    &&& results.len() == ports.len()
    &&& forall|p: int|
        0 <= p < base.len() ==> base[p] + (#[trigger] results[p])@ == ports[p].delivered()
}

/// Whether `after` is the port `before` once its consumer has pulled all
/// that was queued: nothing is queued, nothing was sent in the meantime, and
/// the park is dead exactly where it was before.
pub open spec fn port_drained<T>(before: QueueEgressor<T>, after: QueueEgressor<T>) -> bool {
    &&& after.inv()
    &&& after.capacity() == before.capacity()
    &&& after.sent() == before.sent()
    &&& after.queued().len() == 0
    &&& (after.park() == TaskParkState::Dead) == (before.park() == TaskParkState::Dead)
}

/// Pulls `port`, for task `me`, until its queue is empty and appends what it
/// gave to `results`.
pub fn drain_queue<T>(port: &mut QueueEgressor<T>, me: TaskId, results: &mut Vec<T>)
    requires
        old(port).inv(),
    ensures
        port_drained(*old(port), *final(port)),
        final(results)@ == old(results)@ + old(port).queued(),
        final(port).delivered() == old(port).sent(),
{
    loop
        invariant
            port.inv(),
            port.capacity() == old(port).capacity(),
            port.sent() == old(port).sent(),
            (port.park() == TaskParkState::Dead) == (old(port).park() == TaskParkState::Dead),
            results@ + port.queued() == old(results)@ + old(port).queued(),
        decreases port.queued().len(),
    {
        let ghost queued = port.queued();
        let ghost got = results@;
        let (pulled, _) = port.pull(me);
        match pulled {
            Pull::Item(packet) => {
                results.push(packet);
                assert(results@ + port.queued() =~= got + queued);
            },
            _ => {
                assert(results@ + port.queued() =~= results@);
                assert(port.sent() =~= port.delivered());
                return ;
            },
        }
    }
}

/// Pulls every port until its queue is empty and appends what each gave to
/// its list in `results`. The consumer of port `p` is task `p + 1`.
pub(crate) fn drain_all<T>(
    ports: &mut Vec<QueueEgressor<T>>,
    results: &mut Vec<Vec<T>>,
    Ghost(base): Ghost<Seq<Seq<T>>>,
)
    requires
        forall|p: int| 0 <= p < old(ports)@.len() ==> (#[trigger] old(ports)@[p]).inv(),
        collected(base, old(results)@, old(ports)@),
    ensures
        final(ports)@.len() == old(ports)@.len(),
        collected(base, final(results)@, final(ports)@),
        forall|p: int|
            0 <= p < old(ports)@.len() ==> port_drained(old(ports)@[p], #[trigger] final(ports)@[p]),
{
    let ghost before = ports@;
    let n = ports.len();
    let mut port: usize = 0;
    while port < n
        invariant
            port <= n,
            n == ports@.len(),
            n == before.len(),
            collected(base, results@, ports@),
            forall|p: int| 0 <= p < port ==> port_drained(before[p], #[trigger] ports@[p]),
            forall|p: int| port <= p < n ==> ports@[p] == before[p],
            forall|p: int| 0 <= p < n ==> (#[trigger] before[p]).inv(),
        decreases n - port,
    {
        let ghost now = ports@;
        let ghost got = results@;
        assert(before[port as int].inv() && ports@[port as int] == before[port as int]);
        drain_queue(&mut ports[port], port + 1, &mut results[port]);
        proof {
            assert forall|p: int| 0 <= p < base.len() implies base[p] + (#[trigger] results@[p])@
                == ports@[p].delivered() by {
                assert(base[p] + got[p]@ == now[p].delivered());
                if p == port {
                    assert(base[p] + (got[p]@ + now[p].queued()) =~= (base[p] + got[p]@)
                        + now[p].queued());
                } else {
                    assert(results@[p] == got[p]);
                    assert(ports@[p] == now[p]);
                }
            }
        }
        port += 1;
    }
}

} // verus!
