//! The queue link: a bounded buffer between an input stream and its
//! consumer, which hands every packet on unchanged.

use crate::async_element::{transformed, AsyncElement, AsyncElementLink};
use crate::queue::{in_valid_range, DEFAULT_QUEUE_CAPACITY};
use crate::stream::PacketStream;
use crate::task_park::TaskParkState;
use std::marker::PhantomData;
use vstd::prelude::*;

verus! {

/// The element that hands every packet on unchanged.
pub struct Forward<T> {
    marker: PhantomData<T>,
}

impl<T> Forward<T> {
    pub fn new() -> Self {
        Forward { marker: PhantomData }
    }
}

impl<T> AsyncElement for Forward<T> {
    type Input = T;

    type Output = T;

    open spec fn apply(packet: T) -> T {
        packet
    }

    fn process(&mut self, packet: T) -> (out: T) {
        packet
    }
}

/// What the forwarding element makes of a sequence is that sequence.
pub proof fn lemma_forward_conserves<T>(input: Seq<T>)
    ensures
        transformed::<Forward<T>>(input) == input,
{
    assert(transformed::<Forward<T>>(input) =~= input);
}

/// The builder of a queue link.
pub struct QueueLink<S> {
    in_stream: Option<S>,
    queue_capacity: usize,
}

impl<S> QueueLink<S> {
    #[verifier::type_invariant]
    spec fn admissible(self) -> bool {
        in_valid_range(self.queue_capacity)
    }
}

impl<S: PacketStream> QueueLink<S> {
    /// The input stream that the builder was given, if any.
    pub closed spec fn ingress(&self) -> Option<S> {
        self.in_stream
    }

    /// The capacity that the queue will have.
    pub closed spec fn capacity(&self) -> usize {
        self.queue_capacity
    }

    /// A builder without input, for a queue of the default capacity.
    pub fn new() -> (link: Self)
        ensures
            link.ingress().is_none(),
            link.capacity() == DEFAULT_QUEUE_CAPACITY,
    {
        QueueLink { in_stream: None, queue_capacity: DEFAULT_QUEUE_CAPACITY }
    }

    /// Sets the input stream.
    pub fn ingressor(self, in_stream: S) -> (link: Self)
        ensures
            link.ingress() == Some(in_stream),
            link.capacity() == self.capacity(),
    {
        proof {
            use_type_invariant(&self);
        }
        QueueLink { in_stream: Some(in_stream), queue_capacity: self.queue_capacity }
    }

    /// Sets the capacity of the queue.
    pub fn queue_capacity(self, queue_capacity: usize) -> (link: Self)
        requires
            in_valid_range(queue_capacity),
        ensures
            link.ingress() == self.ingress(),
            link.capacity() == queue_capacity,
    {
        QueueLink { in_stream: self.in_stream, queue_capacity }
    }

    /// Tells whether the builder has what `build_link` needs: an input
    /// stream.
    pub fn is_complete(&self) -> (complete: bool)
        ensures
            complete == self.ingress().is_some(),
    {
        self.in_stream.is_some()
    }

    /// Builds the link: the runnable that fills the queue from the input
    /// stream, and the egress stream at the queue's other end.
    pub fn build_link(self) -> (link: AsyncElementLink<S, Forward<S::Item>>)
        requires
            self.ingress().is_some(),
            self.ingress().unwrap().inv(),
        ensures
            link.wf(),
            link.inv(),
            link.consumer.input() == self.ingress().unwrap(),
            link.consumer.taken() == Seq::<S::Item>::empty(),
            !link.consumer.finished(),
            link.provider.port().queued() == Seq::<S::Item>::empty(),
            link.provider.port().delivered() == Seq::<S::Item>::empty(),
            link.provider.port().park() == TaskParkState::Empty,
            link.provider.port().capacity() == self.capacity(),
    {
        proof {
            use_type_invariant(&self);
        }
        AsyncElementLink::new(self.in_stream.unwrap(), Forward::new(), self.queue_capacity)
    }
}

} // verus!
