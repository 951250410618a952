//! The bounded FIFO queue that stands between a producer and a consumer.

use std::collections::VecDeque;
use vstd::prelude::*;

verus! {

/// The capacity of a queue whose builder was given none.
pub const DEFAULT_QUEUE_CAPACITY: usize = 10;

/// The largest capacity a queue may have, and the largest number of ports a
/// link may have.
pub const MAX_QUEUE_CAPACITY: usize = 1000;

/// Whether `n` is an admissible queue capacity or number of ports.
pub open spec fn in_valid_range(n: usize) -> bool {
    1 <= n <= MAX_QUEUE_CAPACITY
}

/// Tells whether `n` is an admissible queue capacity or number of ports.
pub fn is_in_valid_range(n: usize) -> (ok: bool)
    ensures
        ok == in_valid_range(n),
{
    1 <= n && n <= MAX_QUEUE_CAPACITY
}

/// A first-in, first-out queue that holds at most `capacity()` packets.
/// Sending to a full queue never blocks: the packet is handed back.
pub struct BoundedQueue<T> {
    items: VecDeque<T>,
    capacity: usize,
}

impl<T> View for BoundedQueue<T> {
    type V = Seq<T>;

    closed spec fn view(&self) -> Seq<T> {
        self.items@
    }
}

impl<T> BoundedQueue<T> {
    /// The most packets the queue can hold.
    pub closed spec fn capacity(&self) -> usize {
        self.capacity
    }

    /// The queue never holds more than its capacity, which is admissible.
    pub open spec fn inv(&self) -> bool {
        &&& in_valid_range(self.capacity())
        &&& self@.len() <= self.capacity()
    }

    /// An empty queue for at most `capacity` packets.
    pub fn new(capacity: usize) -> (queue: Self)
        requires
            in_valid_range(capacity),
        ensures
            queue.inv(),
            queue@ == Seq::<T>::empty(),
            queue.capacity() == capacity,
    {
        BoundedQueue { items: VecDeque::new(), capacity }
    }

    /// The number of packets in the queue.
    pub fn len(&self) -> (n: usize)
        ensures
            n == self@.len(),
    {
        self.items.len()
    }

    /// Whether the queue can take no further packet.
    pub fn is_full(&self) -> (full: bool)
        ensures
            full == (self@.len() >= self.capacity()),
    {
        self.items.len() >= self.capacity
    }

    /// Whether the queue holds no packet.
    pub fn is_empty(&self) -> (empty: bool)
        ensures
            empty == (self@.len() == 0),
    {
        self.items.len() == 0
    }

    /// Appends `item` unless the queue is full; a full queue hands it back.
    pub fn try_send(&mut self, item: T) -> (sent: Result<(), T>)
        requires
            old(self).inv(),
        ensures
            final(self).inv(),
            final(self).capacity() == old(self).capacity(),
            match sent {
                Ok(_) => old(self)@.len() < old(self).capacity()
                    && final(self)@ == old(self)@.push(item),
                Err(back) => old(self)@.len() == old(self).capacity() && back == item
                    && final(self)@ == old(self)@,
            },
    {
        if self.items.len() >= self.capacity {
            Err(item)
        } else {
            self.items.push_back(item);
            Ok(())
        }
    }

    /// Appends `item` to a queue that has room for it.
    pub fn send(&mut self, item: T)
        requires
            old(self).inv(),
            old(self)@.len() < old(self).capacity(),
        ensures
            final(self).inv(),
            final(self).capacity() == old(self).capacity(),
            final(self)@ == old(self)@.push(item),
    {
        self.items.push_back(item);
    }

    /// Takes the oldest packet, if there is one.
    pub fn try_recv(&mut self) -> (got: Option<T>)
        requires
            old(self).inv(),
        ensures
            final(self).inv(),
            final(self).capacity() == old(self).capacity(),
            match got {
                Some(item) => old(self)@.len() > 0 && item == old(self)@[0]
                    && final(self)@ == old(self)@.skip(1),
                None => old(self)@.len() == 0 && final(self)@ == old(self)@,
            },
    {
        let got = self.items.pop_front();
        proof {
            if got.is_some() {
                assert(self.items@ =~= old(self).items@.skip(1));
            }
        }
        got
    }
}

} // verus!
