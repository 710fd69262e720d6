//! Run-length encoding of instruction sequences.

use vstd::prelude::*;
use crate::eval::Instruction;

verus! {

/// The largest repeat count that one encoded pair can carry.
pub const RLE_MAX: u16 = 65535;

/// One run of identical values: a positive repeat count and the value.
#[derive(Clone, Copy, PartialEq, Eq, Debug)]
pub struct RLE<T> {
    count: u16,
    value: T,
}

impl<T> RLE<T> {
    /// The repeat count.
    pub closed spec fn count(self) -> u16 {
        self.count
    }

    /// The repeated value.
    pub closed spec fn value(self) -> T {
        self.value
    }
}

impl<T: Copy> RLE<T> {
    /// Packs a repeat count and a value; the count must be positive.
    pub fn new(count: u16, value: T) -> (r: Self)
        requires
            count >= 1,
        ensures
            r.count() == count,
            r.value() == value,
    {
        RLE { count, value }
    }

    /// Unpacks the pair.
    pub fn get(&self) -> (r: (u16, T))
        ensures
            r.0 == self.count(),
            r.1 == self.value(),
    {
        (self.count, self.value)
    }
}

/// An instruction sequence compressed into maximal runs.
#[derive(PartialEq, Eq, Debug)]
pub struct RLEInstructionSet {
    runs: Vec<RLE<Instruction>>,
}

/// The sequence of instructions that a list of runs stands for.
pub open spec fn expand(runs: Seq<RLE<Instruction>>) -> Seq<Instruction>
    decreases runs.len(),
{
    if runs.len() == 0 {
        Seq::empty()
    } else {
        Seq::new(runs[0].count() as nat, |i: int| runs[0].value()) + expand(runs.drop_first())
    }
}

/// Well-formed runs: every count is positive and within the cap, and
/// adjacent runs repeat the same instruction only where the cap forced
/// the earlier run to close.
pub open spec fn rle_wf(runs: Seq<RLE<Instruction>>) -> bool {
    &&& forall|t: int| 0 <= t < runs.len() ==> 1 <= (#[trigger] runs[t]).count() <= RLE_MAX
    &&& forall|t: int|
        0 <= t < runs.len() - 1 ==> ((#[trigger] runs[t]).value() != runs[t + 1].value()
            || runs[t].count() == RLE_MAX)
}

impl View for RLEInstructionSet {
    type V = Seq<RLE<Instruction>>;

    closed spec fn view(&self) -> Seq<RLE<Instruction>> {
        self.runs@
    }
}

impl RLEInstructionSet {
    /// Wraps a list of runs.
    pub(crate) fn from_runs(runs: Vec<RLE<Instruction>>) -> (r: Self)
        ensures
            r@ == runs@,
    {
        RLEInstructionSet { runs }
    }

    /// The number of runs.
    pub fn len(&self) -> (r: usize)
        ensures
            r == self@.len(),
    {
        self.runs.len()
    }

    /// The run at a given index.
    pub fn run(&self, i: usize) -> (r: RLE<Instruction>)
        requires
            i < self@.len(),
        ensures
            r == self@[i as int],
    {
        self.runs[i]
    }
}

} // verus!
