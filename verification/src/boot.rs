//! The choice of the heap's memory from the memory map that the boot loader
//! hands over.

use crate::mem::{Region, GB, MB};
use vstd::prelude::*;

verus! {

/// One entry of the boot loader's memory map.
#[derive(Clone, Copy, Debug, PartialEq, Eq, Structural)]
pub struct MemoryEntry {
    /// The physical address at which the entry starts.
    pub base: usize,
    /// The number of bytes in the entry.
    pub length: usize,
    /// Whether the memory is free for the kernel to use.
    pub usable: bool,
}

impl MemoryEntry {
    /// An entry can serve as heap when it is usable, holds more than one
    /// mebibyte, starts below four gibibytes, and has an address in the
    /// higher half that is offset by `hhdm`.
    pub open spec fn serves(&self, hhdm: usize) -> bool {
        &&& self.usable
        &&& self.length > MB
        &&& self.base < 4 * GB
        &&& self.base + hhdm <= usize::MAX
    }

    /// The heap region that the entry gives: its start in the higher half,
    /// and at most two mebibytes of it.
    pub open spec fn heap_region(&self, hhdm: usize) -> Region {
        Region {
            start: (self.base + hhdm) as usize,
            size: if self.length < 2 * MB {
                self.length
            } else {
                (2 * MB) as usize
            },
        }
    }
}

/// Chooses the heap's memory: the index of the first entry that can serve
/// as heap, with the region that the entry gives, or `Err` where no entry
/// can.
pub fn select_heap_entry(entries: &[MemoryEntry], hhdm: usize) -> (r: Result<(usize, Region), ()>)
    ensures
        match r {
            Ok((at, region)) => {
                &&& at < entries@.len()
                &&& entries@[at as int].serves(hhdm)
                &&& region == entries@[at as int].heap_region(hhdm)
                &&& forall|j: int| 0 <= j < at ==> !(#[trigger] entries@[j]).serves(hhdm)
            },
            Err(_) => forall|i: int|
                0 <= i < entries@.len() ==> !(#[trigger] entries@[i]).serves(hhdm),
        },
{
    let mut i: usize = 0;
    while i < entries.len()
        invariant
            i <= entries@.len(),
            forall|j: int| 0 <= j < i ==> !(#[trigger] entries@[j]).serves(hhdm),
        decreases entries@.len() - i,
    {
        let entry = entries[i];
        if entry.usable && entry.length > MB && entry.base / GB < 4 && entry.base <= usize::MAX
            - hhdm {
            let size: usize = if entry.length < 2 * MB {
                entry.length
            } else {
                2 * MB
            };
            let region = Region::new(entry.base + hhdm, size);
            assert(entries@[i as int].serves(hhdm));
            return Ok((i, region));
        }
        i = i + 1;
    }
    Err(())
}

/// Chooses the heap's memory: the region of the first entry that can serve
/// as heap, or `Err` where no entry can.
pub fn select_heap_region(entries: &[MemoryEntry], hhdm: usize) -> (r: Result<Region, ()>)
    ensures
        match r {
            Ok(region) => exists|i: int|
                {
                    &&& 0 <= i < entries@.len()
                    &&& (#[trigger] entries@[i]).serves(hhdm)
                    &&& region == entries@[i].heap_region(hhdm)
                    &&& forall|j: int| 0 <= j < i ==> !(#[trigger] entries@[j]).serves(hhdm)
                },
            Err(_) => forall|i: int|
                0 <= i < entries@.len() ==> !(#[trigger] entries@[i]).serves(hhdm),
        },
{
    match select_heap_entry(entries, hhdm) {
        Ok((_, region)) => Ok(region),
        Err(_) => Err(()),
    }
}

} // verus!
