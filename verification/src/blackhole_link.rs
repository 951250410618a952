//! The black hole link: it drains any number of input streams and discards
//! what they give.

use crate::stream::{lemma_undrained_decreases, undrained, PacketStream, Pull, Step};
use vstd::prelude::*;

verus! {

/// The builder of a black hole link.
pub struct BlackHoleLink<S> {
    hole: Option<BlackHole<S>>,
}

impl<S: PacketStream> BlackHoleLink<S> {
    /// The black hole that the builder holds, once it was given its input
    /// streams.
    pub closed spec fn hole(&self) -> Option<BlackHole<S>> {
        self.hole
    }

    /// A builder without input streams.
    pub fn new() -> (link: Self)
        ensures
            link.hole().is_none(),
    {
        BlackHoleLink { hole: None }
    }

    /// A builder with the given input streams.
    pub fn ingressors(&self, ingress_streams: Vec<S>) -> (link: Self)
        ensures
            link.hole().is_some(),
            link.hole().unwrap().inputs() == ingress_streams@,
    {
        BlackHoleLink { hole: Some(BlackHole::new(ingress_streams)) }
    }

    /// Tells whether the builder has what `build_link` needs: its input
    /// streams.
    pub fn is_complete(&self) -> (complete: bool)
        ensures
            complete == self.hole().is_some(),
    {
        self.hole.is_some()
    }

    /// Builds the link: its one runnable. It has no egress stream.
    pub fn build_link(self) -> (hole: BlackHole<S>)
        requires
            self.hole().is_some(),
        ensures
            hole == self.hole().unwrap(),
    {
        self.hole.unwrap()
    }
}

/// The runnable of a black hole link.
pub struct BlackHole<S> {
    ingress_streams: Vec<S>,
}

impl<S: PacketStream> BlackHole<S> {
    /// The input streams as they now stand.
    pub closed spec fn inputs(&self) -> Seq<S> {
        self.ingress_streams@
    }

    /// Every input stream is valid.
    pub open spec fn inv(&self) -> bool {
        forall|i: int| 0 <= i < self.inputs().len() ==> (#[trigger] self.inputs()[i]).inv()
    }

    /// Whether every input stream has given all its packets.
    pub open spec fn drained(&self) -> bool {
        forall|i: int|
            0 <= i < self.inputs().len() ==> (#[trigger] self.inputs()[i]).pending().len() == 0
    }

    /// The runnable that drains `ingress_streams`.
    pub fn new(ingress_streams: Vec<S>) -> (hole: Self)
        ensures
            hole.inputs() == ingress_streams@,
    {
        BlackHole { ingress_streams }
    }

    /// One turn of the runnable: every input stream is pulled, and what it
    /// gives discarded, until it ends or is not ready.
    ///
    /// The turn is done when every stream has ended. Otherwise the runnable
    /// is blocked: at least one stream was not ready and has used up one of
    /// its stalls. No stream has gained packets or stalls, and one that has
    /// packets left has used up a stall.
    pub fn poll(&mut self) -> (step: Step)
        requires
            old(self).inv(),
        ensures
            final(self).inv(),
            final(self).inputs().len() == old(self).inputs().len(),
            step != Step::Progress,
            step == Step::Done ==> final(self).drained(),
            step == Step::Blocked ==> exists|i: int|
                0 <= i < old(self).inputs().len() && (#[trigger] final(self).inputs()[i]).stalls()
                    < old(self).inputs()[i].stalls(),
            forall|i: int|
                0 <= i < old(self).inputs().len() ==> {
                    let before = old(self).inputs()[i];
                    let after = #[trigger] final(self).inputs()[i];
                    &&& after.stalls() <= before.stalls()
                    &&& after.pending().len() <= before.pending().len()
                    &&& after.pending() == before.pending().skip(
                        before.pending().len() - after.pending().len(),
                    )
                    &&& after.pending().len() > 0 ==> after.stalls() < before.stalls()
                },
    {
        let ghost before = self.ingress_streams@;
        let n = self.ingress_streams.len();
        let mut all_ended = true;
        let ghost mut stalled: int = 0;
        let mut i: usize = 0;
        while i < n
            invariant
                i <= n,
                n == self.ingress_streams@.len(),
                n == before.len(),
                forall|j: int| 0 <= j < n ==> (#[trigger] self.ingress_streams@[j]).inv(),
                forall|j: int| i <= j < n ==> self.ingress_streams@[j] == before[j],
                all_ended ==> forall|j: int|
                    0 <= j < i ==> (#[trigger] self.ingress_streams@[j]).pending().len() == 0,
                !all_ended ==> 0 <= stalled < i && self.ingress_streams@[stalled].stalls()
                    < before[stalled].stalls(),
                forall|j: int|
                    0 <= j < i ==> {
                        let was = before[j];
                        let now = #[trigger] self.ingress_streams@[j];
                        &&& now.stalls() <= was.stalls()
                        &&& now.pending().len() <= was.pending().len()
                        &&& now.pending() == was.pending().skip(
                            was.pending().len() - now.pending().len(),
                        )
                        &&& now.pending().len() > 0 ==> now.stalls() < was.stalls()
                    },
            decreases n - i,
        {
            let ended = drain_ready(&mut self.ingress_streams[i]);
            if !ended {
                all_ended = false;
                proof {
                    stalled = i as int;
                }
            }
            i += 1;
        }
        if all_ended {
            Step::Done
        } else {
            Step::Blocked
        }
    }

    /// Runs the runnable to its end: every input stream is pulled until it
    /// ends. No packet is left in any of them.
    pub fn run(&mut self)
        requires
            old(self).inv(),
        ensures
            final(self).inv(),
            final(self).inputs().len() == old(self).inputs().len(),
            final(self).drained(),
    {
        loop
            invariant
                self.inv(),
                self.inputs().len() == old(self).inputs().len(),
            decreases undrained(self.inputs()),
        {
            let ghost before = self.inputs();
            match self.poll() {
                Step::Done => {
                    return ;
                },
                _ => {
                    proof {
                        let stalled = choose|i: int|
                            0 <= i < before.len() && (#[trigger] self.inputs()[i]).stalls()
                                < before[i].stalls();
                        lemma_undrained_decreases(before, self.inputs(), stalled);
                    }
                },
            }
        }
    }
}

/// Pulls `stream`, discarding what it gives, until it ends or is not ready.
/// Tells whether it has ended.
pub fn drain_ready<S: PacketStream>(stream: &mut S) -> (ended: bool)
    requires
        old(stream).inv(),
    ensures
        final(stream).inv(),
        final(stream).stalls() <= old(stream).stalls(),
        final(stream).pending().len() <= old(stream).pending().len(),
        final(stream).pending() == old(stream).pending().skip(
            old(stream).pending().len() - final(stream).pending().len(),
        ),
        ended ==> final(stream).pending().len() == 0,
        !ended ==> final(stream).stalls() < old(stream).stalls(),
{
    loop
        invariant
            stream.inv(),
            stream.stalls() <= old(stream).stalls(),
            stream.pending().len() <= old(stream).pending().len(),
            stream.pending() == old(stream).pending().skip(
                old(stream).pending().len() - stream.pending().len(),
            ),
        decreases stream.pending().len(),
    {
        let ghost was = stream.pending();
        match stream.pull() {
            Pull::Item(_) => {
                assert(stream.pending() =~= old(stream).pending().skip(
                    old(stream).pending().len() - stream.pending().len(),
                ));
            },
            Pull::End => {
                return true;
            },
            Pull::NotReady => {
                return false;
            },
        }
    }
}

} // verus!
