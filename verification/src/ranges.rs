//! A set of byte offsets, kept as ranges.
use btree_range_map::RangeSet;
use vstd::prelude::*;

use crate::lang::ByteRange;

verus! {

/// Byte offsets of a source, held as the ranges that were put in.
#[verifier::external_body]
pub struct OffsetSet {
    ranges: RangeSet<usize>,
}

/// The offsets that `set` holds.
pub uninterp spec fn offsets_of(set: OffsetSet) -> Set<int>;

/// The offsets of `range`.
pub open spec fn offsets_in(range: ByteRange) -> Set<int> {
    Set::new(|x: int| range.covers(x))
}

/// Whether `offsets` hold an offset of `range`.
pub open spec fn meets(offsets: Set<int>, range: ByteRange) -> bool {
    exists|x: int| range.covers(x) && #[trigger] offsets.contains(x)
}

impl OffsetSet {
    /// `RangeSet::new`: a set that holds nothing.
    #[verifier::external_body]
    pub(crate) fn new() -> (set: Self)
        ensures
            offsets_of(set) == Set::<int>::empty(),
    {
        OffsetSet { ranges: RangeSet::new() }
    }

    /// `RangeSet::insert`: the offsets of `range` are added to the set; a
    /// range without offsets adds nothing.
    #[verifier::external_body]
    pub(crate) fn insert(&mut self, range: ByteRange)
        ensures
            offsets_of(*final(self)) == offsets_of(*old(self)).union(offsets_in(range)),
    {
        self.ranges.insert(range.start..range.end);
    }

    /// `RangeSet::intersects`: whether the set holds an offset of `range`.
    #[verifier::external_body]
    pub(crate) fn intersects(&self, range: ByteRange) -> (found: bool)
        ensures
            found == meets(offsets_of(*self), range),
    {
        self.ranges.intersects(range.start..range.end)
    }
}

} // verus!
