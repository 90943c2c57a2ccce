//! A record of what the system's random source has been asked for.

use vstd::prelude::*;

verus! {

/// The random source, as one user of it sees it: the outcomes of its draws, in order. An outcome
/// is the block that was drawn, or nothing where the draw failed. The record is there for
/// contracts only. A new one is empty, and nothing in this module adds to it.
pub(crate) struct RandomSource {
    drawn: Ghost<Seq<Option<Seq<u8>>>>,
}

impl View for RandomSource {
    type V = Seq<Option<Seq<u8>>>;

    closed spec fn view(&self) -> Seq<Option<Seq<u8>>> {
        self.drawn@
    }
}

impl RandomSource {
    /// A source that nothing has been drawn from yet.
    pub(crate) fn new() -> (res: Self)
        ensures
            res@ == Seq::<Option<Seq<u8>>>::empty(),
    {
        RandomSource { drawn: Ghost(Seq::empty()) }
    }
}

} // verus!
