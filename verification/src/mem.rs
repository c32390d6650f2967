//! Heap memory: the allocator facade, the growable buffer and the owned
//! collections built on it.

pub mod heap;
pub mod order;
pub mod string;
pub mod vec;
pub mod boxed;
pub mod dynamic_buffer;
pub mod growth;

use vstd::prelude::*;

verus! {

/// One kibibyte.
pub const KB: usize = 1024;

/// One mebibyte.
pub const MB: usize = 1048576;

/// One gibibyte.
pub const GB: usize = 1073741824;

/// One end of a range of indices.
#[derive(Clone, Copy, Debug, PartialEq, Eq, Structural)]
pub enum Bound {
    /// The index itself belongs to the range.
    Included(usize),
    /// The index itself does not belong to the range.
    Excluded(usize),
    /// The range has no end on this side.
    Unbounded,
}

/// A contiguous extent of memory, `[start, start + size)`, that can be
/// registered with the allocator.
#[derive(Clone, Copy, Debug, PartialEq, Eq, Structural)]
pub struct Region {
    pub start: usize,
    pub size: usize,
}

impl Region {
    /// A region is usable as heap memory when neither its start nor its size
    /// is zero and its end is an address.
    pub open spec fn valid(&self) -> bool {
        &&& self.start != 0
        &&& self.size != 0
        &&& self.start + self.size <= usize::MAX
    }

    /// The first address behind the region.
    pub open spec fn spec_end(&self) -> int {
        self.start + self.size
    }

    /// Two regions are disjoint when one ends before the other starts.
    pub open spec fn disjoint(&self, other: Region) -> bool {
        self.spec_end() <= other.start || other.spec_end() <= self.start
    }

    pub fn new(start: usize, size: usize) -> (r: Self)
        ensures
            r.start == start,
            r.size == size,
    {
        Region { start, size }
    }

    /// The region that holds nothing: it is not valid as heap memory.
    pub fn empty() -> (r: Self)
        ensures
            r.start == 0,
            r.size == 0,
            !r.valid(),
    {
        Region { start: 0, size: 0 }
    }

    pub fn start(&self) -> (r: usize)
        ensures
            r == self.start,
    {
        self.start
    }

    pub fn size(&self) -> (r: usize)
        ensures
            r == self.size,
    {
        self.size
    }

    /// The first address behind the region, or `None` where that is not an
    /// address.
    pub fn end(&self) -> (r: Option<usize>)
        ensures
            r == (if self.spec_end() <= usize::MAX {
                Some(self.spec_end() as usize)
            } else {
                None
            }),
    {
        self.start.checked_add(self.size)
    }

    pub fn is_valid(&self) -> (r: bool)
        ensures
            r == self.valid(),
    {
        self.start != 0 && self.size != 0 && self.size <= usize::MAX - self.start
    }

    /// Whether this region ends before `other` starts.
    fn ends_before(&self, other: &Region) -> (r: bool)
        ensures
            r == (self.spec_end() <= other.start),
    {
        other.start >= self.start && other.start - self.start >= self.size
    }

    /// Whether the two regions are not disjoint.
    pub fn overlaps(&self, other: &Region) -> (r: bool)
        ensures
            r == !self.disjoint(*other),
    {
        !(self.ends_before(other) || other.ends_before(self))
    }
}

} // verus!
