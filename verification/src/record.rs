//! What a chip reads of a shard's execution record to decide whether it takes part
//! in the shard's proof.

use vstd::prelude::*;

verus! {

/// A fixed proof shape: the chips it includes, each with the log2 of its height.
/// A well-formed shape maps chip names to heights: it lists no name twice
/// ([`CoreShape::has_distinct_chips`]).
pub struct CoreShape {
    pub inner: Vec<(String, usize)>,
}

impl CoreShape {
    /// No chip name occurs twice in the shape.
    pub open spec fn has_distinct_chips(&self) -> bool {
        forall|i: int, j: int|
            0 <= i < j < self.inner@.len() ==> (#[trigger] self.inner@[i]).0@ != (
            #[trigger] self.inner@[j]).0@
    }

    /// The shape lists a chip of this name.
    pub open spec fn has_chip(&self, name: Seq<char>) -> bool {
        exists|i: int| 0 <= i < self.inner@.len() && (#[trigger] self.inner@[i]).0@ == name
    }

    /// Whether the shape includes the chip called `name`.
    pub fn included(&self, name: &String) -> (r: bool)
        ensures
            r == self.has_chip(name@),
    {
        let mut i: usize = 0;
        while i < self.inner.len()
            invariant
                i <= self.inner@.len(),
                forall|j: int| 0 <= j < i ==> (#[trigger] self.inner@[j]).0@ != name@,
            decreases self.inner@.len() - i,
        {
            if self.inner[i].0 == *name {
                return true;
            }
            i = i + 1;
        }
        false
    }
}

/// The parts of a shard's execution record that the chips here read: its fixed
/// shape, if it has one, and how many events of each kind it holds.
pub struct ShardRecord {
    pub shape: Option<CoreShape>,
    /// Local memory events, from the CPU and from the precompiles.
    pub local_memory_events: usize,
    /// Keccak permutation precompile events.
    pub keccak_permute_events: usize,
    /// 256-bit modular multiplication precompile events.
    pub uint256_mul_events: usize,
}

/// Whether a chip called `name` takes part in a shard: the shape decides when the
/// shard has one, otherwise whether the chip has events to prove.
pub open spec fn chip_included(shape: Option<CoreShape>, name: Seq<char>, has_events: bool) -> bool {
    match shape {
        Some(s) => s.has_chip(name),
        None => has_events,
    }
}

} // verus!
