//! The allocator facade: the single authority over heap memory.
//!
//! The facade wraps a buddy-system engine that hands out address ranges from
//! the regions registered with it. A request that the engine refuses runs the
//! out-of-memory handler once; if the handler registered more memory, the same
//! request is tried exactly once more.

use crate::mem::growth::{
    checked_next_power_of_two, lemma_next_power_of_two_bounds, lemma_next_power_of_two_least,
    lemma_next_power_of_two_unique, lemma_pow2_gap, lemma_pow2_positive, next_power_of_two,
};
use crate::mem::Region;
use vstd::arithmetic::power::{lemma_pow_positive, pow};
use vstd::arithmetic::power2::{
    is_pow2, is_pow2_equiv, is_pow2_exists, lemma2_to64, lemma2_to64_rest, pow2,
};
use vstd::layout::valid_layout;
use vstd::prelude::*;

verus! {

/// Size and alignment of an allocation request.
#[derive(Clone, Copy, Debug, PartialEq, Eq, Structural)]
pub struct Layout {
    pub size: usize,
    pub align: usize,
}

/// The size of the block that the engine reserves for a request: the next
/// power of two of the size, or the alignment where that is larger.
pub open spec fn spec_block_size(size: usize, align: usize) -> nat {
    if next_power_of_two(size as nat) >= align {
        next_power_of_two(size as nat)
    } else {
        align as nat
    }
}

proof fn lemma_isize_bound_is_pow2()
    ensures
        is_pow2(isize::MAX as int + 1),
        isize::MAX as int + 1 <= usize::MAX,
{
    lemma2_to64();
    lemma2_to64_rest();
    assert(isize::MAX as int + 1 == pow2(31) || isize::MAX as int + 1 == pow2(63));
    lemma_pow_positive(2, 31);
    lemma_pow_positive(2, 63);
    assert(pow(2, 31) == pow2(31) && pow(2, 63) == pow2(63));
    assert(is_pow2_exists(isize::MAX as int + 1));
    is_pow2_equiv(isize::MAX as int + 1);
}

/// The block of a valid layout is a power of two that fits a `usize` and
/// is neither smaller than the request nor smaller than the alignment.
pub proof fn lemma_block_size_bounds(size: usize, align: usize)
    requires
        valid_layout(size, align),
    ensures
        spec_block_size(size, align) <= isize::MAX as int + 1,
        spec_block_size(size, align) <= usize::MAX,
        spec_block_size(size, align) >= size,
        spec_block_size(size, align) >= align,
        spec_block_size(size, align) >= 1,
        is_pow2(spec_block_size(size, align) as int),
{
    lemma_isize_bound_is_pow2();
    lemma_pow2_positive(align as int);
    assert(usize::MAX as int == 2 * (isize::MAX as int + 1) - 1);
    if align as int > isize::MAX as int + 1 {
        lemma_pow2_gap(isize::MAX as int + 1, align as int);
    }
    lemma_next_power_of_two_bounds(size as nat);
    lemma_next_power_of_two_least(size as nat, isize::MAX as int + 1);
}

impl Layout {
    /// A layout is valid when its alignment is a power of two and its size,
    /// rounded up to the alignment, does not exceed `isize::MAX`.
    pub open spec fn valid(&self) -> bool {
        valid_layout(self.size, self.align)
    }

    /// The size of the block that the engine reserves for this layout.
    pub open spec fn block_size(&self) -> nat {
        spec_block_size(self.size, self.align)
    }

    /// The layout of `size` bytes aligned to `align`, or `None` where that
    /// is not a valid layout.
    pub fn from_size_align(size: usize, align: usize) -> (r: Option<Layout>)
        ensures
            r == (if valid_layout(size, align) {
                Some(Layout { size, align })
            } else {
                None
            }),
    {
        let rounded = checked_next_power_of_two(align);
        proof {
            lemma_next_power_of_two_bounds(align as nat);
            if is_pow2(align as int) {
                lemma_pow2_positive(align as int);
                lemma_next_power_of_two_unique(align as nat, align as int);
            }
            lemma_isize_bound_is_pow2();
        }
        if align == 0 || rounded != Some(align) {
            proof {
                reveal(is_pow2);
            }
            return None;
        }
        let limit: usize = isize::MAX as usize;
        assert(limit % align <= limit) by (nonlinear_arith)
            requires
                align > 0,
        ;
        if size > limit - limit % align {
            return None;
        }
        Some(Layout { size, align })
    }

    /// The layout of one value of type `T`.
    pub fn new<T>() -> (r: Layout)
        ensures
            r.size == vstd::layout::size_of::<T>(),
            r.align == vstd::layout::align_of::<T>(),
            r.valid(),
    {
        vstd::layout::layout_for_type_is_valid::<T>();
        Layout { size: core::mem::size_of::<T>(), align: core::mem::align_of::<T>() }
    }

    pub fn size(&self) -> (r: usize)
        ensures
            r == self.size,
    {
        self.size
    }

    pub fn align(&self) -> (r: usize)
        ensures
            r == self.align,
    {
        self.align
    }

    /// Computes the size of the block that the engine reserves for this
    /// layout.
    pub fn block(&self) -> (r: usize)
        requires
            self.valid(),
        ensures
            r == self.block_size(),
    {
        proof {
            lemma_block_size_bounds(self.size, self.align);
            lemma_next_power_of_two_bounds(self.size as nat);
        }
        match checked_next_power_of_two(self.size) {
            Some(p) => if p >= self.align {
                p
            } else {
                self.align
            },
            None => self.align,
        }
    }
}

/// The buddy-system engine, as an opaque value: its inside is never read.
#[verifier::external_type_specification]
#[verifier::external_body]
pub struct ExFrameAllocator<const ORDER: usize>(buddy_system_allocator::FrameAllocator<ORDER>);

/// The engine behind the facade: a buddy system over addresses, with blocks
/// of at most 2^31 bytes.
pub type Heap = buddy_system_allocator::FrameAllocator<32>;

/// The ranges `(start, end)` that were registered with the engine, in the
/// order of their registration.
pub uninterp spec fn engine_spans(engine: Heap) -> Seq<(usize, usize)>;

/// The blocks that the engine has handed out and not taken back: the start
/// address of each, with the block's size.
pub uninterp spec fn engine_blocks(engine: Heap) -> Map<usize, usize>;

/// The number of bytes registered with the engine.
pub uninterp spec fn engine_total(engine: Heap) -> usize;

/// The number of bytes in the blocks that the engine has handed out and not
/// taken back.
pub uninterp spec fn engine_allocated(engine: Heap) -> usize;

/// What the engine answers to a request for `size` bytes aligned to `align`
/// in the state it is in: the start of the block that it hands out, or `None`
/// where it refuses.
pub uninterp spec fn engine_choice(engine: Heap, size: usize, align: usize) -> Option<usize>;

/// Whether the address `a` lies in one of the ranges `spans`.
pub open spec fn in_spans(spans: Seq<(usize, usize)>, a: int) -> bool {
    exists|i: int| 0 <= i < spans.len() && (#[trigger] spans[i]).0 <= a < spans[i].1
}

/// Whether the addresses from `start` up to `end` share none with the
/// blocks `blocks`.
pub open spec fn clear_of(blocks: Map<usize, usize>, start: int, end: int) -> bool {
    forall|b: usize| #[trigger] blocks.contains_key(b) ==> end <= b || b + blocks[b] <= start
}

/// The empty set of live blocks.
pub open spec fn no_blocks() -> Map<usize, usize> {
    Map::empty()
}

/// The range `(start, end)` that a region covers.
pub open spec fn span_of(region: Region) -> (usize, usize) {
    (region.start, (region.start + region.size) as usize)
}

/// Calls `FrameAllocator::new`: an engine with no memory and no block.
#[verifier::external_body]
fn engine_new() -> (engine: Heap)
    ensures
        engine_spans(engine).len() == 0,
        engine_blocks(engine) == no_blocks(),
        engine_total(engine) == 0,
        engine_allocated(engine) == 0,
{
    buddy_system_allocator::FrameAllocator::new()
}

/// Calls `FrameAllocator::add_frame`, which cuts `[start, end)` into free
/// blocks and adds `end - start` to the engine's total. The method panics
/// where `end < start`, and its total is a `usize`. It does not look for
/// ranges that it was given before: the range must share no address with
/// them, or the engine would hand out one address twice.
#[verifier::external_body]
fn engine_add_frame(engine: &mut Heap, start: usize, end: usize)
    requires
        start <= end,
        engine_total(*old(engine)) + (end - start) <= usize::MAX,
        forall|i: int|
            0 <= i < engine_spans(*old(engine)).len() ==> {
                ||| end <= (#[trigger] engine_spans(*old(engine))[i]).0
                ||| engine_spans(*old(engine))[i].1 <= start
            },
    ensures
        engine_spans(*final(engine)) == engine_spans(*old(engine)).push((start, end)),
        engine_blocks(*final(engine)) == engine_blocks(*old(engine)),
        engine_total(*final(engine)) == engine_total(*old(engine)) + (end - start),
        engine_allocated(*final(engine)) == engine_allocated(*old(engine)),
{
    engine.add_frame(start, end)
}

/// Calls `FrameAllocator::alloc_aligned`, which takes a free block of
/// `max(size.next_power_of_two(), align)` bytes, splitting a larger one where
/// it has to, and returns the block's start; or returns `None`, with the
/// engine as it was, where no free block is large enough. The answer depends
/// on the engine's state and the request alone. A block starts at a multiple
/// of its size, every address of it lies in a registered range, and it shares
/// no address with a block that is handed out. It counts into the allocated
/// bytes, which never exceed the total.
#[verifier::external_body]
fn engine_alloc(engine: &mut Heap, layout: Layout) -> (r: Option<usize>)
    requires
        layout.valid(),
    ensures
        r == engine_choice(*old(engine), layout.size, layout.align),
        r is None ==> *final(engine) == *old(engine),
        engine_spans(*final(engine)) == engine_spans(*old(engine)),
        engine_total(*final(engine)) == engine_total(*old(engine)),
        match r {
            Some(addr) => {
                &&& !engine_blocks(*old(engine)).contains_key(addr)
                &&& engine_blocks(*final(engine)) == engine_blocks(*old(engine)).insert(
                    addr,
                    layout.block_size() as usize,
                )
                &&& addr as int % layout.block_size() as int == 0
                &&& forall|a: int|
                    addr <= a < addr + layout.block_size() ==> #[trigger] in_spans(
                        engine_spans(*old(engine)),
                        a,
                    )
                &&& clear_of(
                    engine_blocks(*old(engine)),
                    addr as int,
                    addr + layout.block_size(),
                )
                &&& engine_allocated(*final(engine)) == engine_allocated(*old(engine))
                    + layout.block_size()
                &&& engine_allocated(*final(engine)) <= engine_total(*final(engine))
            },
            None => {
                &&& engine_blocks(*final(engine)) == engine_blocks(*old(engine))
                &&& engine_allocated(*final(engine)) == engine_allocated(*old(engine))
            },
        },
{
    match core::alloc::Layout::from_size_align(layout.size, layout.align) {
        Ok(request) => engine.alloc_aligned(request),
        Err(_) => None,
    }
}

/// Calls `FrameAllocator::dealloc_aligned`, which takes back the block that
/// starts at `addr`, merging it with its free buddies, and subtracts the
/// block's size from the allocated bytes. The block must have been handed out
/// for the same layout and not taken back since.
#[verifier::external_body]
fn engine_dealloc(engine: &mut Heap, addr: usize, layout: Layout)
    requires
        layout.valid(),
        engine_blocks(*old(engine)).contains_key(addr),
        engine_blocks(*old(engine))[addr] == layout.block_size(),
    ensures
        engine_spans(*final(engine)) == engine_spans(*old(engine)),
        engine_total(*final(engine)) == engine_total(*old(engine)),
        engine_blocks(*final(engine)) == engine_blocks(*old(engine)).remove(addr),
        engine_allocated(*final(engine)) + layout.block_size() == engine_allocated(
            *old(engine),
        ),
{
    if let Ok(request) = core::alloc::Layout::from_size_align(layout.size, layout.align) {
        engine.dealloc_aligned(addr, request)
    }
}

/// What the embedding environment supplies: the search for memory that can
/// serve as heap. It is asked once when the allocator is initialised, and
/// once for every request that the engine refuses.
pub trait RegionFinder {
    /// A region that can be added to the heap, or `Err` where none is left.
    fn find_heap_region(&mut self) -> Result<Region, ()>;
}

/// The allocator facade.
pub struct Allocator<F: RegionFinder> {
    engine: Heap,
    regions: std::vec::Vec<Region>,
    finder: F,
    total: usize,
    allocated: usize,
}

impl<F: RegionFinder> Allocator<F> {
    /// The regions registered so far, in the order of their registration.
    pub closed spec fn spec_regions(&self) -> Seq<Region> {
        self.regions@
    }

    /// The live blocks: the start address of each block that was handed out
    /// and not taken back, with the block's size.
    pub closed spec fn blocks(&self) -> Map<usize, usize> {
        engine_blocks(self.engine)
    }

    /// The number of bytes registered as heap.
    pub closed spec fn spec_total(&self) -> nat {
        self.total as nat
    }

    /// The number of bytes in live blocks.
    pub closed spec fn spec_allocated(&self) -> nat {
        self.allocated as nat
    }

    /// What the engine answers to a request for `layout` as the heap
    /// stands, with no recovery: the address of the block that it grants, or
    /// `None` where it refuses.
    pub closed spec fn choice(&self, layout: Layout) -> Option<usize> {
        engine_choice(self.engine, layout.size, layout.align)
    }

    /// `after` answers every request as this allocator does.
    pub open spec fn answers_alike(&self, after: Self) -> bool {
        forall|layout: Layout| #[trigger] after.choice(layout) == self.choice(layout)
    }

    /// The environment's search for memory, in the state it is in.
    pub closed spec fn spec_finder(&self) -> F {
        self.finder
    }

    /// The facade's counters and its list of regions agree with the engine.
    pub closed spec fn wf(&self) -> bool {
        &&& engine_total(self.engine) == self.total
        &&& engine_allocated(self.engine) == self.allocated
        &&& self.allocated <= self.total
        &&& engine_spans(self.engine).len() == self.regions@.len()
        &&& forall|i: int|
            0 <= i < self.regions@.len() ==> {
                &&& (#[trigger] self.regions@[i]).valid()
                &&& engine_spans(self.engine)[i] == span_of(self.regions@[i])
            }
    }

    /// Whether the block at `addr` is live and was handed out for `layout`.
    pub open spec fn holds(&self, addr: usize, layout: Layout) -> bool {
        &&& self.blocks().contains_key(addr)
        &&& self.blocks()[addr] == layout.block_size()
    }

    /// Whether `addr` lies in a registered region.
    pub open spec fn owns(&self, addr: usize) -> bool {
        exists|i: int|
            0 <= i < self.spec_regions().len() && (#[trigger] self.spec_regions()[i]).start
                <= addr < self.spec_regions()[i].spec_end()
    }

    /// Whether every address from `start` up to `end` lies in a registered
    /// region.
    pub open spec fn owns_range(&self, start: int, end: int) -> bool {
        forall|a: int| start <= a < end ==> #[trigger] self.owns_at(a)
    }

    /// Whether the address `a` lies in a registered region.
    pub open spec fn owns_at(&self, a: int) -> bool {
        exists|i: int|
            0 <= i < self.spec_regions().len() && (#[trigger] self.spec_regions()[i]).start
                <= a < self.spec_regions()[i].spec_end()
    }

    /// Whether `region` can be registered: it is valid, shares no address
    /// with a registered region, and the total stays a `usize`.
    pub open spec fn accepts(&self, region: Region) -> bool {
        &&& region.valid()
        &&& self.spec_total() + region.size <= usize::MAX
        &&& forall|i: int|
            0 <= i < self.spec_regions().len() ==> (#[trigger] self.spec_regions()[i]).disjoint(
                region,
            )
    }

    /// `after` is this allocator with one more live block: the block for
    /// `layout` at `addr`, which was not live before and starts at a multiple
    /// of its size. Every address of the block lies in a registered region,
    /// so the block does not start at the null address, and the block shares
    /// no address with a block that was live. The bytes in live blocks have
    /// grown by the block's size,
    /// and they are no more than the bytes that `after` has registered: a
    /// request whose block is larger than what is left of the heap is never
    /// granted.
    pub open spec fn grants(&self, after: Self, addr: usize, layout: Layout) -> bool {
        &&& !self.blocks().contains_key(addr)
        &&& after.blocks() == self.blocks().insert(addr, layout.block_size() as usize)
        &&& after.holds(addr, layout)
        &&& after.owns(addr)
        &&& after.owns_range(addr as int, addr + layout.block_size())
        &&& clear_of(self.blocks(), addr as int, addr + layout.block_size())
        &&& addr != 0
        &&& addr as int % layout.block_size() as int == 0
        &&& after.spec_allocated() == self.spec_allocated() + layout.block_size()
        &&& self.spec_allocated() + layout.block_size() <= after.spec_total()
    }

    /// `after` has the live blocks of this allocator.
    pub open spec fn same_blocks(&self, after: Self) -> bool {
        &&& after.blocks() == self.blocks()
        &&& after.spec_allocated() == self.spec_allocated()
    }

    /// `after` has the registered regions of this allocator.
    pub open spec fn same_regions(&self, after: Self) -> bool {
        &&& after.spec_regions() == self.spec_regions()
        &&& after.spec_total() == self.spec_total()
    }

    /// The search for memory was not asked between this allocator and
    /// `after`.
    pub open spec fn finder_at_rest(&self, after: Self) -> bool {
        after.spec_finder() == self.spec_finder()
    }

    /// Whether the answer `found` of the search for memory is a region that
    /// this allocator registers.
    pub open spec fn takes(&self, found: Result<Region, ()>) -> bool {
        found matches Ok(region) && self.accepts(region)
    }

    /// `after` is this allocator after the search for memory has answered
    /// `found`: a region that this allocator accepts is registered, and any
    /// other answer leaves the regions as they were.
    pub open spec fn recovered_with(&self, after: Self, found: Result<Region, ()>) -> bool {
        if self.takes(found) {
            &&& after.spec_regions() == self.spec_regions().push(found->Ok_0)
            &&& after.spec_total() == self.spec_total() + found->Ok_0.size
        } else {
            self.same_regions(after)
        }
    }

    /// `after` has the registered regions of this allocator and one more,
    /// which this allocator accepts.
    pub open spec fn extended(&self, after: Self) -> bool {
        &&& after.spec_regions().len() == self.spec_regions().len() + 1
        &&& after.spec_regions().drop_last() == self.spec_regions()
        &&& self.accepts(after.spec_regions().last())
        &&& after.spec_total() == self.spec_total() + after.spec_regions().last().size
    }

    /// In a well-formed allocator the live blocks never hold more bytes than
    /// were registered, and every registered region is valid.
    pub proof fn lemma_wf_bounds(&self)
        requires
            self.wf(),
        ensures
            self.spec_allocated() <= self.spec_total(),
            self.spec_total() <= usize::MAX,
            forall|i: int|
                0 <= i < self.spec_regions().len() ==> (#[trigger] self.spec_regions()[i]).valid(),
    {
    }

    /// Allocators with the same regions accept the same regions.
    pub proof fn lemma_accepts_alike(&self, other: Self, region: Region)
        requires
            self.same_regions(other),
        ensures
            self.accepts(region) == other.accepts(region),
    {
        if self.accepts(region) {
            assert forall|i: int| 0 <= i < other.spec_regions().len() implies (
            #[trigger] other.spec_regions()[i]).disjoint(region) by {
                assert(self.spec_regions()[i].disjoint(region));
            }
        }
        if other.accepts(region) {
            assert forall|i: int| 0 <= i < self.spec_regions().len() implies (
            #[trigger] self.spec_regions()[i]).disjoint(region) by {
                assert(other.spec_regions()[i].disjoint(region));
            }
        }
    }

    /// Allocation and deallocation pair up: once a block that was granted
    /// has been taken back, the live blocks and their bytes are what they
    /// were before the grant.
    pub proof fn lemma_grant_and_take_back(
        &self,
        granted: Self,
        after: Self,
        addr: usize,
        layout: Layout,
    )
        requires
            self.grants(granted, addr, layout),
            after.blocks() == granted.blocks().remove(addr),
            after.spec_allocated() + layout.block_size() == granted.spec_allocated(),
        ensures
            self.same_blocks(after),
    {
        assert(after.blocks() =~= self.blocks());
    }

    /// An allocator with no memory: every request fails until a region is
    /// registered.
    pub fn new(finder: F) -> (r: Self)
        ensures
            r.wf(),
            r.spec_regions().len() == 0,
            r.blocks() == no_blocks(),
            r.spec_total() == 0,
            r.spec_allocated() == 0,
    {
        Allocator {
            engine: engine_new(),
            regions: std::vec::Vec::new(),
            finder,
            total: 0,
            allocated: 0,
        }
    }

    /// Registers `region` as heap memory, or refuses it with `Err` and
    /// changes nothing.
    pub fn add_region(&mut self, region: Region) -> (r: Result<(), ()>)
        requires
            old(self).wf(),
        ensures
            final(self).wf(),
            old(self).finder_at_rest(*final(self)),
            final(self).blocks() == old(self).blocks(),
            final(self).spec_allocated() == old(self).spec_allocated(),
            r is Ok <==> old(self).accepts(region),
            r is Ok ==> final(self).spec_regions() == old(self).spec_regions().push(region)
                && final(self).spec_total() == old(self).spec_total() + region.size,
            r is Err ==> final(self).spec_regions() == old(self).spec_regions()
                && final(self).spec_total() == old(self).spec_total(),
            r is Err ==> old(self).answers_alike(*final(self)),
    {
        if !region.is_valid() {
            return Err(());
        }
        if region.size > usize::MAX - self.total {
            return Err(());
        }
        let mut i: usize = 0;
        while i < self.regions.len()
            invariant
                self.wf(),
                *self == *old(self),
                region.valid(),
                i <= self.regions.len(),
                forall|j: int| 0 <= j < i ==> (#[trigger] self.regions@[j]).disjoint(region),
            decreases self.regions.len() - i,
        {
            if self.regions[i].overlaps(&region) {
                assert(!old(self).spec_regions()[i as int].disjoint(region));
                return Err(());
            }
            i = i + 1;
        }
        assert forall|j: int| 0 <= j < engine_spans(self.engine).len() implies {
            ||| region.start + region.size <= (#[trigger] engine_spans(self.engine)[j]).0
            ||| engine_spans(self.engine)[j].1 <= region.start
        } by {
            assert(self.regions@[j].disjoint(region));
        }
        engine_add_frame(&mut self.engine, region.start, region.start + region.size);
        self.regions.push(region);
        self.total = self.total + region.size;
        Ok(())
    }

    /// Registers the addresses `[start, end)` as heap memory, or refuses
    /// them with `Err` and changes nothing.
    pub fn add_to_heap(&mut self, start: usize, end: usize) -> (r: Result<(), ()>)
        requires
            old(self).wf(),
        ensures
            final(self).wf(),
            old(self).finder_at_rest(*final(self)),
            final(self).blocks() == old(self).blocks(),
            final(self).spec_allocated() == old(self).spec_allocated(),
            r is Ok <==> start <= end && old(self).accepts(
                Region { start, size: (end - start) as usize },
            ),
            r is Ok ==> final(self).spec_regions() == old(self).spec_regions().push(
                Region { start, size: (end - start) as usize },
            ) && final(self).spec_total() == old(self).spec_total() + (end - start),
            r is Err ==> final(self).spec_regions() == old(self).spec_regions()
                && final(self).spec_total() == old(self).spec_total(),
    {
        if end < start {
            return Err(());
        }
        self.add_region(Region::new(start, end - start))
    }

    /// The number of bytes registered as heap.
    pub fn total_bytes(&self) -> (r: usize)
        ensures
            r == self.spec_total(),
    {
        self.total
    }

    /// The number of bytes in live blocks.
    pub fn allocated_bytes(&self) -> (r: usize)
        ensures
            r == self.spec_allocated(),
    {
        self.allocated
    }

    /// The regions registered so far.
    pub fn get_regions(&self) -> (r: &[Region])
        ensures
            r@ == self.spec_regions(),
    {
        self.regions.as_slice()
    }

    /// Asks the engine once for a block for `layout`, with no recovery, and
    /// returns the engine's answer. A request that is refused leaves the
    /// heap as it was, so that it would be refused again.
    pub fn try_alloc(&mut self, layout: Layout) -> (r: Option<usize>)
        requires
            old(self).wf(),
            layout.valid(),
        ensures
            r == old(self).choice(layout),
            r is None ==> old(self).answers_alike(*final(self)),
            final(self).wf(),
            old(self).finder_at_rest(*final(self)),
            old(self).same_regions(*final(self)),
            match r {
                Some(addr) => old(self).grants(*final(self), addr, layout),
                None => old(self).same_blocks(*final(self)),
            },
    {
        let ghost spans = engine_spans(self.engine);
        let got = engine_alloc(&mut self.engine, layout);
        match got {
            Some(addr) => {
                proof {
                    lemma_block_size_bounds(layout.size, layout.align);
                }
                self.allocated = self.allocated + layout.block();
                proof {
                    assert forall|a: int|
                        addr <= a < addr + layout.block_size() implies #[trigger] self.owns_at(
                        a,
                    ) by {
                        assert(in_spans(spans, a));
                        let i = choose|i: int|
                            0 <= i < spans.len() && (#[trigger] spans[i]).0 <= a < spans[i].1;
                        assert(self.regions@[i].valid());
                        assert(self.spec_regions()[i].start <= a);
                        assert(a < self.spec_regions()[i].spec_end());
                    }
                    assert(self.owns_at(addr as int));
                    let i = choose|i: int|
                        0 <= i < self.spec_regions().len() && (
                        #[trigger] self.spec_regions()[i]).start <= addr
                            < self.spec_regions()[i].spec_end();
                    assert(self.regions@[i].valid());
                    assert(self.owns(addr));
                    assert(self.holds(addr, layout));
                }
                Some(addr)
            },
            None => None,
        }
    }

    /// Registers the region that the search for memory came back with.
    /// Returns `Ok` exactly where a region was found and could be registered;
    /// otherwise nothing changes.
    pub fn extend_with(&mut self, found: Result<Region, ()>) -> (r: Result<(), ()>)
        requires
            old(self).wf(),
        ensures
            final(self).wf(),
            old(self).finder_at_rest(*final(self)),
            old(self).same_blocks(*final(self)),
            r is Ok <==> (found matches Ok(region) && old(self).accepts(region)),
            r is Ok ==> final(self).spec_regions() == old(self).spec_regions().push(found->Ok_0)
                && final(self).spec_total() == old(self).spec_total() + found->Ok_0.size,
            r is Err ==> old(self).same_regions(*final(self)),
            r is Err ==> old(self).answers_alike(*final(self)),
    {
        match found {
            Ok(region) => self.add_region(region),
            Err(_) => Err(()),
        }
    }

    /// The recovery that runs when the engine refuses a request: asks the
    /// environment once for one more region and registers the region that
    /// it answers. Returns `Ok` exactly where the answer is a region that the
    /// allocator accepts, and `Err`, with nothing changed, where no region
    /// was found or the one found could not be registered.
    pub fn out_of_memory_handler(&mut self) -> (r: Result<(), ()>)
        requires
            old(self).wf(),
        ensures
            exists|finder: &mut F, found: Result<Region, ()>|
                {
                    &&& *finder == old(self).spec_finder()
                    &&& *final(finder) == final(self).spec_finder()
                    &&& #[trigger] call_ensures(F::find_heap_region, (finder,), found)
                    &&& r is Ok <==> old(self).takes(found)
                    &&& old(self).recovered_with(*final(self), found)
                },
            final(self).wf(),
            old(self).same_blocks(*final(self)),
            r is Ok ==> old(self).extended(*final(self)),
            r is Err ==> old(self).same_regions(*final(self)),
            r is Err ==> old(self).answers_alike(*final(self)),
    {
        let found = self.finder.find_heap_region();
        let ghost asked = *self;
        assert(exists|finder: &mut F|
            *finder == old(self).spec_finder() && *final(finder) == asked.spec_finder()
                && #[trigger] call_ensures(F::find_heap_region, (finder,), found));
        proof {
            old(self).lemma_accepts_alike(asked, found->Ok_0);
        }
        let r = self.extend_with(found);
        proof {
            if r is Ok {
                assert(final(self).spec_regions().drop_last() =~= old(self).spec_regions());
            }
        }
        r
    }

    /// Asks the environment once for the first region of the heap and
    /// registers the region that it answers. Returns `Ok` exactly where the
    /// answer is a region that the allocator accepts.
    pub fn init(&mut self) -> (r: Result<(), ()>)
        requires
            old(self).wf(),
        ensures
            exists|finder: &mut F, found: Result<Region, ()>|
                {
                    &&& *finder == old(self).spec_finder()
                    &&& *final(finder) == final(self).spec_finder()
                    &&& #[trigger] call_ensures(F::find_heap_region, (finder,), found)
                    &&& r is Ok <==> old(self).takes(found)
                    &&& old(self).recovered_with(*final(self), found)
                },
            final(self).wf(),
            old(self).same_blocks(*final(self)),
            r is Ok ==> old(self).extended(*final(self)),
            r is Err ==> old(self).same_regions(*final(self)),
            r is Err ==> old(self).answers_alike(*final(self)),
    {
        self.out_of_memory_handler()
    }

    /// The second half of a request that the engine refused: where the
    /// recovery succeeded the request is tried once more, and where it failed
    /// the request fails with nothing changed.
    pub fn retry_after(&mut self, layout: Layout, recovery: Result<(), ()>) -> (r: Option<usize>)
        requires
            old(self).wf(),
            layout.valid(),
        ensures
            final(self).wf(),
            old(self).finder_at_rest(*final(self)),
            old(self).same_regions(*final(self)),
            r == (if recovery is Ok {
                old(self).choice(layout)
            } else {
                None
            }),
            r is None ==> old(self).answers_alike(*final(self)),
            match r {
                Some(addr) => old(self).grants(*final(self), addr, layout),
                None => old(self).same_blocks(*final(self)),
            },
    {
        match recovery {
            Ok(_) => self.try_alloc(layout),
            Err(_) => None,
        }
    }

    /// Allocates a block for `layout` and returns its address, or `None`.
    ///
    /// Where the engine grants the request as the heap stands, its answer is
    /// the result, and the heap does not ask for more memory. Where the
    /// engine refuses the request the out-of-memory handler runs once: the
    /// environment is asked once, and where its answer is a region that the
    /// allocator accepts the same request is made exactly once more; any
    /// other answer makes the request fail. The heap grows by at most one
    /// region. A request that fails leaves a heap that would refuse it
    /// again.
    pub fn alloc_block(&mut self, layout: Layout) -> (r: Option<usize>)
        requires
            old(self).wf(),
            layout.valid(),
        ensures
            final(self).wf(),
            old(self).choice(layout) is Some ==> {
                &&& r == old(self).choice(layout)
                &&& old(self).same_regions(*final(self))
                &&& old(self).finder_at_rest(*final(self))
            },
            old(self).choice(layout) is None && r is Some ==> old(self).extended(
                *final(self),
            ),
            old(self).choice(layout) is None ==> exists|
                finder: &mut F,
                found: Result<Region, ()>,
            |
                {
                    &&& *finder == old(self).spec_finder()
                    &&& *final(finder) == final(self).spec_finder()
                    &&& #[trigger] call_ensures(F::find_heap_region, (finder,), found)
                    &&& old(self).recovered_with(*final(self), found)
                    &&& !old(self).takes(found) ==> r is None
                },
            r is None ==> final(self).choice(layout) is None,
            old(self).same_regions(*final(self)) || old(self).extended(*final(self)),
            r is Some && old(self).same_regions(*final(self)) ==> old(self).finder_at_rest(
                *final(self),
            ),
            match r {
                Some(addr) => old(self).grants(*final(self), addr, layout),
                None => old(self).same_blocks(*final(self)),
            },
    {
        match self.try_alloc(layout) {
            Some(addr) => Some(addr),
            None => {
                let ghost refused = *self;
                let recovery = self.out_of_memory_handler();
                proof {
                    assert forall|found: Result<Region, ()>|
                        refused.takes(found) == #[trigger] old(self).takes(found) by {
                        old(self).lemma_accepts_alike(refused, found->Ok_0);
                    }
                }
                self.retry_after(layout, recovery)
            },
        }
    }

    /// Allocates as `alloc_block` does, with the same result. The cells of a
    /// block are typed and start out empty in the buffer that owns the
    /// block, so a fresh block holds nothing that could be told from zeroes.
    pub fn alloc_zeroed(&mut self, layout: Layout) -> (r: Option<usize>)
        requires
            old(self).wf(),
            layout.valid(),
        ensures
            final(self).wf(),
            old(self).choice(layout) is Some ==> {
                &&& r == old(self).choice(layout)
                &&& old(self).same_regions(*final(self))
                &&& old(self).finder_at_rest(*final(self))
            },
            old(self).choice(layout) is None && r is Some ==> old(self).extended(
                *final(self),
            ),
            old(self).choice(layout) is None ==> exists|
                finder: &mut F,
                found: Result<Region, ()>,
            |
                {
                    &&& *finder == old(self).spec_finder()
                    &&& *final(finder) == final(self).spec_finder()
                    &&& #[trigger] call_ensures(F::find_heap_region, (finder,), found)
                    &&& old(self).recovered_with(*final(self), found)
                    &&& !old(self).takes(found) ==> r is None
                },
            r is None ==> final(self).choice(layout) is None,
            old(self).same_regions(*final(self)) || old(self).extended(*final(self)),
            r is Some && old(self).same_regions(*final(self)) ==> old(self).finder_at_rest(
                *final(self),
            ),
            match r {
                Some(addr) => old(self).grants(*final(self), addr, layout),
                None => old(self).same_blocks(*final(self)),
            },
    {
        self.alloc_block(layout)
    }

    /// Takes back the block at `addr`, which must be live and have been
    /// handed out for `layout`.
    pub fn dealloc(&mut self, addr: usize, layout: Layout)
        requires
            old(self).wf(),
            layout.valid(),
            old(self).holds(addr, layout),
        ensures
            final(self).wf(),
            old(self).finder_at_rest(*final(self)),
            old(self).same_regions(*final(self)),
            final(self).blocks() == old(self).blocks().remove(addr),
            final(self).spec_allocated() + layout.block_size() == old(self).spec_allocated(),
    {
        proof {
            lemma_block_size_bounds(layout.size, layout.align);
        }
        engine_dealloc(&mut self.engine, addr, layout);
        self.allocated = self.allocated - layout.block();
    }

    /// Moves the block at `addr` to a block of `new_size` bytes with the
    /// same alignment: the new block is allocated first, with no recovery,
    /// and the old one is taken back only then. The result is the engine's
    /// answer to the new layout, and `None` where that is no valid layout. On
    /// failure the old block stays live and nothing changes.
    pub fn realloc(&mut self, addr: usize, layout: Layout, new_size: usize) -> (r: Option<usize>)
        requires
            old(self).wf(),
            layout.valid(),
            old(self).holds(addr, layout),
        ensures
            final(self).wf(),
            r == (if valid_layout(new_size, layout.align) {
                old(self).choice(Layout { size: new_size, align: layout.align })
            } else {
                None
            }),
            old(self).finder_at_rest(*final(self)),
            old(self).same_regions(*final(self)),
            match r {
                Some(fresh) => {
                    let wanted = Layout { size: new_size, align: layout.align };
                    &&& wanted.valid()
                    &&& fresh != addr
                    &&& !old(self).blocks().contains_key(fresh)
                    &&& fresh as int % wanted.block_size() as int == 0
                    &&& final(self).blocks() == old(self).blocks().insert(
                        fresh,
                        wanted.block_size() as usize,
                    ).remove(addr)
                    &&& final(self).spec_allocated() + layout.block_size() == old(
                        self,
                    ).spec_allocated() + wanted.block_size()
                },
                None => old(self).same_blocks(*final(self)),
            },
    {
        match Layout::from_size_align(new_size, layout.align) {
            None => None,
            Some(wanted) => {
                match self.try_alloc(wanted) {
                    None => None,
                    Some(fresh) => {
                        self.dealloc(addr, layout);
                        Some(fresh)
                    },
                }
            },
        }
    }

    /// Moves the block at `addr` from `layout` to `wanted`: the new block is
    /// allocated first, with recovery as in `alloc_block`, and the old one is
    /// taken back only then. Where the engine grants `wanted` as the heap
    /// stands, its answer is the result. On failure the old block stays live.
    pub fn realloc_layout(&mut self, addr: usize, layout: Layout, wanted: Layout) -> (r: Option<
        usize,
    >)
        requires
            old(self).wf(),
            layout.valid(),
            wanted.valid(),
            old(self).holds(addr, layout),
        ensures
            final(self).wf(),
            old(self).choice(wanted) is Some ==> {
                &&& r == old(self).choice(wanted)
                &&& old(self).same_regions(*final(self))
                &&& old(self).finder_at_rest(*final(self))
            },
            old(self).choice(wanted) is None && r is Some ==> old(self).extended(
                *final(self),
            ),
            old(self).choice(wanted) is None ==> exists|
                finder: &mut F,
                found: Result<Region, ()>,
            |
                {
                    &&& *finder == old(self).spec_finder()
                    &&& *final(finder) == final(self).spec_finder()
                    &&& #[trigger] call_ensures(F::find_heap_region, (finder,), found)
                    &&& old(self).recovered_with(*final(self), found)
                    &&& !old(self).takes(found) ==> r is None
                },
            old(self).same_regions(*final(self)) || old(self).extended(*final(self)),
            match r {
                Some(fresh) => {
                    &&& fresh != addr
                    &&& !old(self).blocks().contains_key(fresh)
                    &&& fresh as int % wanted.block_size() as int == 0
                    &&& final(self).blocks() == old(self).blocks().insert(
                        fresh,
                        wanted.block_size() as usize,
                    ).remove(addr)
                    &&& final(self).spec_allocated() + layout.block_size() == old(
                        self,
                    ).spec_allocated() + wanted.block_size()
                },
                None => old(self).same_blocks(*final(self)),
            },
    {
        match self.alloc_block(wanted) {
            None => None,
            Some(fresh) => {
                let ghost grown = *self;
                self.dealloc(addr, layout);
                proof {
                    assert(old(self).same_regions(grown) || old(self).extended(grown));
                    assert(grown.same_regions(*self));
                }
                Some(fresh)
            },
        }
    }
}

} // verus!
