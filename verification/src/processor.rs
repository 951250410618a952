//! Processors: the per-packet transformations that users supply.

use std::marker::PhantomData;
use vstd::prelude::*;

verus! {

/// A stateless transformation of one packet into at most one packet.
pub trait Processor {
    type Input;

    type Output;

    /// What the processor makes of `packet`: `None` where it drops it.
    spec fn apply(packet: Self::Input) -> Option<Self::Output>;

    /// Transforms `packet`, or drops it by returning `None`.
    fn process(&mut self, packet: Self::Input) -> (out: Option<Self::Output>)
        ensures
            out == Self::apply(packet),
    ;
}

/// The packets that processor `P` makes of the packets `input`, in order:
/// each packet is transformed or dropped on its own.
pub open spec fn processed<P: Processor>(input: Seq<P::Input>) -> Seq<P::Output>
    decreases input.len(),
{
    if input.len() == 0 {
        Seq::empty()
    } else {
        match P::apply(input[0]) {
            Some(packet) => seq![packet] + processed::<P>(input.skip(1)),
            None => processed::<P>(input.skip(1)),
        }
    }
}

/// The processor that hands every packet on unchanged.
pub struct Identity<T> {
    marker: PhantomData<T>,
}

impl<T> Identity<T> {
    pub fn new() -> Self {
        Identity { marker: PhantomData }
    }
}

impl<T> Processor for Identity<T> {
    type Input = T;

    type Output = T;

    open spec fn apply(packet: T) -> Option<T> {
        Some(packet)
    }

    fn process(&mut self, packet: T) -> (out: Option<T>) {
        Some(packet)
    }
}

/// The processor that drops every packet.
pub struct Drop<T> {
    marker: PhantomData<T>,
}

impl<T> Drop<T> {
    pub fn new() -> Self {
        Drop { marker: PhantomData }
    }
}

impl<T> Processor for Drop<T> {
    type Input = T;

    type Output = T;

    open spec fn apply(packet: T) -> Option<T> {
        None
    }

    fn process(&mut self, packet: T) -> (out: Option<T>) {
        None
    }
}

/// The processor that converts every packet of type `A` into one of type `B`.
pub struct TransformFrom<A, B> {
    from: PhantomData<A>,
    into: PhantomData<B>,
}

impl<A, B> TransformFrom<A, B> {
    pub fn new() -> Self {
        TransformFrom { from: PhantomData, into: PhantomData }
    }
}

impl Processor for TransformFrom<char, u32> {
    type Input = char;

    type Output = u32;

    open spec fn apply(packet: char) -> Option<u32> {
        Some(packet as u32)
    }

    fn process(&mut self, packet: char) -> (out: Option<u32>) {
        Some(packet as u32)
    }
}

impl Processor for TransformFrom<u8, u32> {
    type Input = u8;

    type Output = u32;

    open spec fn apply(packet: u8) -> Option<u32> {
        Some(packet as u32)
    }

    fn process(&mut self, packet: u8) -> (out: Option<u32>) {
        Some(packet as u32)
    }
}

/// The identity processor keeps every packet: what it makes of a sequence is
/// that sequence.
pub proof fn lemma_identity_conserves<T>(input: Seq<T>)
    ensures
        processed::<Identity<T>>(input) == input,
    decreases input.len(),
{
    if input.len() > 0 {
        lemma_identity_conserves::<T>(input.skip(1));
        assert(seq![input[0]] + input.skip(1) =~= input);
    } else {
        assert(input =~= Seq::<T>::empty());
    }
}

/// The dropping processor keeps nothing.
pub proof fn lemma_drop_keeps_nothing<T>(input: Seq<T>)
    ensures
        processed::<Drop<T>>(input) == Seq::<T>::empty(),
    decreases input.len(),
{
    if input.len() > 0 {
        lemma_drop_keeps_nothing::<T>(input.skip(1));
    }
}

} // verus!
