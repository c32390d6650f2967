//! Initialisation of the library's services.

use crate::mem::heap::{Allocator, RegionFinder};
use crate::mem::Region;
use vstd::prelude::*;

verus! {

/// Initialises the allocator: the environment is asked once for the first
/// region of the heap, and the region that it answers is registered. Returns
/// `Ok` exactly where the answer is a region that the allocator accepts, and
/// `Err`, with the allocator as it was, where no region was found or the one
/// found could not be registered.
pub fn allocator<F: RegionFinder>(heap: &mut Allocator<F>) -> (r: Result<(), ()>)
    requires
        old(heap).wf(),
    ensures
        exists|finder: &mut F, found: Result<Region, ()>|
            {
                &&& *finder == old(heap).spec_finder()
                &&& *final(finder) == final(heap).spec_finder()
                &&& #[trigger] call_ensures(F::find_heap_region, (finder,), found)
                &&& r is Ok <==> old(heap).takes(found)
                &&& old(heap).recovered_with(*final(heap), found)
            },
        final(heap).wf(),
        old(heap).same_blocks(*final(heap)),
        r is Ok ==> old(heap).extended(*final(heap)),
        r is Err ==> old(heap).same_regions(*final(heap)),
{
    heap.init()
}

} // verus!
