//! Streams of packets and the three outcomes of a pull.

use std::collections::VecDeque;
use vstd::prelude::*;

verus! {

/// What one pull on a stream gives.
#[derive(Debug, PartialEq, Eq)]
pub enum Pull<T> {
    /// The next packet.
    Item(T),
    /// The stream is over; no packet follows.
    End,
    /// Nothing can be had now; the caller suspends and is woken later.
    NotReady,
}

/// What one turn of a runnable gives.
#[derive(Debug, PartialEq, Eq, Clone, Copy)]
pub enum Step {
    /// Work was done and more may follow at once.
    Progress,
    /// The runnable has finished; it is not to be run again.
    Done,
    /// No progress is possible until a peer wakes the runnable.
    Blocked,
}

/// A lazy, finite, single-consumer sequence of packets.
///
/// `pending` is the sequence of packets that the stream has yet to give, in
/// order, and `stalls` bounds how often it may still answer `NotReady`: that
/// bound is what makes the stream finite.
pub trait PacketStream {
    type Item;

    /// The validity of the stream's state.
    spec fn inv(&self) -> bool;

    /// The packets still to come, first one first.
    spec fn pending(&self) -> Seq<Self::Item>;

    /// How many more times the stream may answer `NotReady`.
    spec fn stalls(&self) -> nat;

    /// Takes the next packet, if there is one now.
    fn pull(&mut self) -> (out: Pull<Self::Item>)
        requires
            old(self).inv(),
        ensures
            final(self).inv(),
            pulled(
                old(self).pending(),
                old(self).stalls(),
                out,
                final(self).pending(),
                final(self).stalls(),
            ),
    ;
}

/// The relation between a stream before a pull, the outcome, and the stream
/// after it: an item is the head of what was pending, `End` comes only when
/// nothing is pending, and `NotReady` keeps the packets and uses up a stall.
pub open spec fn pulled<T>(
    before: Seq<T>,
    stalls_before: nat,
    out: Pull<T>,
    after: Seq<T>,
    stalls_after: nat,
) -> bool {
    match out {
        Pull::Item(t) => before.len() > 0 && t == before[0] && after == before.skip(1)
            && stalls_after <= stalls_before,
        Pull::End => before.len() == 0 && after.len() == 0 && stalls_after <= stalls_before,
        Pull::NotReady => after == before && stalls_after < stalls_before,
    }
}

/// A stream that gives the packets of a list one after the other and never
/// makes its consumer wait.
pub struct ImmediateStream<T> {
    packets: VecDeque<T>,
}

impl<T> ImmediateStream<T> {
    /// A stream of `packets`, first one first.
    pub fn new(packets: Vec<T>) -> (stream: Self)
        ensures
            stream.inv(),
            stream.pending() == packets@,
            stream.stalls() == 0,
    {
        ImmediateStream { packets: into_queue(packets) }
    }
}

/// Moves the packets of a list into a queue, first one first.
fn into_queue<T>(packets: Vec<T>) -> (queue: VecDeque<T>)
    ensures
        queue@ == packets@,
{
    let mut rest = packets;
    let mut queue: VecDeque<T> = VecDeque::new();
    while rest.len() > 0
        invariant
            rest@ + queue@ == packets@,
        decreases rest.len(),
    {
        let ghost before = rest@;
        let ghost queued = queue@;
        let last = rest.pop();
        match last {
            Some(packet) => {
                queue.push_front(packet);
                assert(rest@ + queue@ =~= before + queued);
            },
            None => {},
        }
    }
    assert(queue@ =~= packets@);
    queue
}

impl<T> PacketStream for ImmediateStream<T> {
    type Item = T;

    open spec fn inv(&self) -> bool {
        true
    }

    closed spec fn pending(&self) -> Seq<T> {
        self.packets@
    }

    open spec fn stalls(&self) -> nat {
        0
    }

    fn pull(&mut self) -> (out: Pull<T>) {
        match self.packets.pop_front() {
            Some(packet) => Pull::Item(packet),
            None => Pull::End,
        }
    }
}

/// A stream of the packets of `packets`, first one first, that never answers
/// `NotReady`.
pub fn immediate_stream<T>(packets: Vec<T>) -> (stream: ImmediateStream<T>)
    ensures
        stream.inv(),
        stream.pending() == packets@,
        stream.stalls() == 0,
{
    ImmediateStream::new(packets)
}

/// A stream that makes its consumer wait before each packet: it answers
/// `NotReady` a fixed number of times, then gives the next packet of a list.
pub struct PacketIntervalGenerator<T> {
    interval: usize,
    wait: usize,
    packets: VecDeque<T>,
}

impl<T> PacketIntervalGenerator<T> {
    /// The number of `NotReady` answers before each packet.
    pub closed spec fn interval(&self) -> usize {
        self.interval
    }

    /// The number of `NotReady` answers before the next packet.
    pub closed spec fn wait(&self) -> usize {
        self.wait
    }

    /// A stream of `packets`, first one first, that answers `NotReady`
    /// `interval` times before each of them.
    pub fn new(interval: usize, packets: Vec<T>) -> (stream: Self)
        ensures
            stream.inv(),
            stream.pending() == packets@,
            stream.interval() == interval,
            stream.wait() == interval,
    {
        PacketIntervalGenerator { interval, wait: interval, packets: into_queue(packets) }
    }
}

impl<T> PacketStream for PacketIntervalGenerator<T> {
    type Item = T;

    open spec fn inv(&self) -> bool {
        self.wait() <= self.interval()
    }

    closed spec fn pending(&self) -> Seq<T> {
        self.packets@
    }

    open spec fn stalls(&self) -> nat {
        if self.pending().len() == 0 {
            0
        } else {
            (self.wait() + self.interval() * (self.pending().len() - 1)) as nat
        }
    }

    /// Answers `NotReady` while the wait lasts, then gives the next packet
    /// and starts the wait anew; answers `End` once no packet is left.
    fn pull(&mut self) -> (out: Pull<T>)
        ensures
            old(self).pending().len() > 0 && old(self).wait() > 0 ==> out == Pull::<T>::NotReady
                && final(self).wait() == old(self).wait() - 1,
            old(self).pending().len() > 0 && old(self).wait() == 0 ==> out == Pull::Item(
                old(self).pending()[0],
            ) && final(self).wait() == old(self).interval(),
            final(self).interval() == old(self).interval(),
    {
        if self.packets.len() == 0 {
            Pull::End
        } else if self.wait > 0 {
            self.wait = self.wait - 1;
            Pull::NotReady
        } else {
            let ghost left = self.packets@.len() as int;
            let ghost interval = self.interval as int;
            match self.packets.pop_front() {
                Some(packet) => {
                    self.wait = self.interval;
                    proof {
                        if left >= 2 {
                            assert(interval + interval * (left - 2) == interval * (left - 1))
                                by (nonlinear_arith);
                        }
                    }
                    Pull::Item(packet)
                },
                None => Pull::End,
            }
        }
    }
}

/// Pulls `stream` until it ends and returns every packet it gave, in order.
/// A `NotReady` answer is simply followed by another pull.
pub fn collect<S: PacketStream>(stream: &mut S) -> (packets: Vec<S::Item>)
    requires
        old(stream).inv(),
    ensures
        final(stream).inv(),
        packets@ == old(stream).pending(),
        final(stream).pending().len() == 0,
{
    let mut packets: Vec<S::Item> = Vec::new();
    loop
        invariant
            stream.inv(),
            packets@ + stream.pending() == old(stream).pending(),
        decreases stream.pending().len() + stream.stalls(),
    {
        let ghost before = stream.pending();
        let ghost got = packets@;
        match stream.pull() {
            Pull::Item(packet) => {
                packets.push(packet);
                assert(packets@ + stream.pending() =~= got + before);
            },
            Pull::End => {
                assert(packets@ =~= packets@ + stream.pending());
                return packets;
            },
            Pull::NotReady => {},
        }
    }
}

/// The work that is left in one stream: the packets it has yet to give and
/// the times it may yet answer that it is not ready.
pub open spec fn work<S: PacketStream>(stream: S) -> nat {
    stream.pending().len() + stream.stalls()
}

/// The work that is left in `streams`, all together.
pub open spec fn undrained<S: PacketStream>(streams: Seq<S>) -> nat
    decreases streams.len(),
{
    if streams.len() == 0 {
        0
    } else {
        undrained(streams.drop_last()) + work(streams.last())
    }
}

/// Where no stream has gained work and stream `at` has lost some, less work
/// is left.
pub proof fn lemma_undrained_decreases<S: PacketStream>(before: Seq<S>, after: Seq<S>, at: int)
    requires
        before.len() == after.len(),
        forall|i: int| 0 <= i < before.len() ==> work(#[trigger] after[i]) <= work(before[i]),
        0 <= at < before.len(),
        work(after[at]) < work(before[at]),
    ensures
        undrained(after) < undrained(before),
    decreases before.len(),
{
    let n = before.len() - 1;
    assert(after.last() == after[n]);
    if at < n {
        assert forall|i: int| 0 <= i < n implies work(#[trigger] after.drop_last()[i]) <= work(
            before.drop_last()[i],
        ) by {
            assert(after.drop_last()[i] == after[i]);
        }
        lemma_undrained_decreases(before.drop_last(), after.drop_last(), at);
    } else {
        lemma_undrained_no_increase(before.drop_last(), after.drop_last());
    }
}

/// Where no stream has gained work, no more work is left than before.
pub proof fn lemma_undrained_no_increase<S: PacketStream>(before: Seq<S>, after: Seq<S>)
    requires
        before.len() == after.len(),
        forall|i: int| 0 <= i < before.len() ==> work(#[trigger] after[i]) <= work(before[i]),
    ensures
        undrained(after) <= undrained(before),
    decreases before.len(),
{
    if before.len() > 0 {
        let n = before.len() - 1;
        assert(after.last() == after[n]);
        assert forall|i: int| 0 <= i < n implies work(#[trigger] after.drop_last()[i]) <= work(
            before.drop_last()[i],
        ) by {
            assert(after.drop_last()[i] == after[i]);
        }
        lemma_undrained_no_increase(before.drop_last(), after.drop_last());
    }
}

} // verus!
