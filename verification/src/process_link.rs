//! The process link: a pull-through stage that hands every packet of its
//! input to a processor. It has no runnable and no queue.

use crate::processor::{lemma_identity_conserves, processed, Identity, Processor};
use crate::stream::{PacketStream, Pull};
use vstd::prelude::*;

verus! {

/// The builder of a process link.
pub struct ProcessLink<S, P> {
    in_stream: Option<S>,
    processor: Option<P>,
}

impl<S: PacketStream, P: Processor<Input = S::Item>> ProcessLink<S, P> {
    /// The input stream that the builder was given, if any.
    pub closed spec fn ingress(&self) -> Option<S> {
        self.in_stream
    }

    /// The processor that the builder was given, if any.
    pub closed spec fn transform(&self) -> Option<P> {
        self.processor
    }

    /// A builder without input and without processor.
    pub fn new() -> (link: Self)
        ensures
            link.ingress().is_none(),
            link.transform().is_none(),
    {
        ProcessLink { in_stream: None, processor: None }
    }

    /// Sets the input stream.
    pub fn ingressor(self, in_stream: S) -> (link: Self)
        ensures
            link.ingress() == Some(in_stream),
            link.transform() == self.transform(),
    {
        ProcessLink { in_stream: Some(in_stream), processor: self.processor }
    }

    /// Sets the input stream from a list that holds exactly one.
    pub fn ingressors(self, in_streams: Vec<S>) -> (link: Self)
        requires
            in_streams@.len() == 1,
        ensures
            link.ingress() == Some(in_streams@[0]),
            link.transform() == self.transform(),
    {
        let mut in_streams = in_streams;
        let in_stream = in_streams.remove(0);
        ProcessLink { in_stream: Some(in_stream), processor: self.processor }
    }

    /// Sets the processor.
    pub fn processor(self, processor: P) -> (link: Self)
        ensures
            link.ingress() == self.ingress(),
            link.transform() == Some(processor),
    {
        ProcessLink { in_stream: self.in_stream, processor: Some(processor) }
    }

    /// Tells whether the builder has what `build_link` needs: an input stream
    /// and a processor.
    pub fn is_complete(&self) -> (complete: bool)
        ensures
            complete == (self.ingress().is_some() && self.transform().is_some()),
    {
        self.in_stream.is_some() && self.processor.is_some()
    }

    /// Builds the link: its one egress stream, which gives what the processor
    /// makes of the input's packets.
    pub fn build_link(self) -> (runner: ProcessRunner<S, P>)
        requires
            self.ingress().is_some(),
            self.transform().is_some(),
            self.ingress().unwrap().inv(),
        ensures
            runner.inv(),
            runner.input() == self.ingress().unwrap(),
            runner.pending() == processed::<P>(self.ingress().unwrap().pending()),
            runner.stalls() == self.ingress().unwrap().stalls(),
    {
        ProcessRunner::new(self.in_stream.unwrap(), self.processor.unwrap())
    }
}

/// The single egress stream of a process link.
pub struct ProcessRunner<S, P> {
    in_stream: S,
    processor: P,
}

impl<S: PacketStream, P: Processor<Input = S::Item>> ProcessRunner<S, P> {
    /// The input stream as it now stands.
    pub closed spec fn input(&self) -> S {
        self.in_stream
    }

    /// The egress stream that applies `processor` to the packets of
    /// `in_stream`.
    pub fn new(in_stream: S, processor: P) -> (runner: Self)
        requires
            in_stream.inv(),
        ensures
            runner.inv(),
            runner.input() == in_stream,
            runner.pending() == processed::<P>(in_stream.pending()),
            runner.stalls() == in_stream.stalls(),
    {
        ProcessRunner { in_stream, processor }
    }
}

impl<S: PacketStream, P: Processor<Input = S::Item>> PacketStream for ProcessRunner<S, P> {
    type Item = P::Output;

    closed spec fn inv(&self) -> bool {
        self.in_stream.inv()
    }

    closed spec fn pending(&self) -> Seq<P::Output> {
        processed::<P>(self.in_stream.pending())
    }

    closed spec fn stalls(&self) -> nat {
        self.in_stream.stalls()
    }

    /// Pulls the input until the processor keeps a packet, or the input ends
    /// or is not ready.
    fn pull(&mut self) -> (out: Pull<P::Output>) {
        loop
            invariant
                self.in_stream.inv(),
                processed::<P>(self.in_stream.pending()) == processed::<P>(
                    old(self).in_stream.pending(),
                ),
                self.in_stream.stalls() <= old(self).in_stream.stalls(),
            decreases self.in_stream.pending().len(),
        {
            match self.in_stream.pull() {
                Pull::NotReady => {
                    return Pull::NotReady;
                },
                Pull::End => {
                    return Pull::End;
                },
                Pull::Item(input_packet) => {
                    match self.processor.process(input_packet) {
                        Some(output_packet) => {
                            proof {
                                let rest = processed::<P>(self.in_stream.pending());
                                assert((seq![output_packet] + rest).skip(1) =~= rest);
                            }
                            return Pull::Item(output_packet);
                        },
                        None => {},
                    }
                },
            }
        }
    }
}

/// A process link with the identity processor conserves its input: the
/// packets it gives are the packets of its input, in order.
pub proof fn lemma_identity_link_conserves<S: PacketStream>(
    runner: ProcessRunner<S, Identity<S::Item>>,
)
    ensures
        runner.pending() == runner.input().pending(),
{
    lemma_identity_conserves::<S::Item>(runner.input().pending());
}

} // verus!
