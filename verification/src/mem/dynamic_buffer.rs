//! The growable buffer: a capacity-tracked run of cells for one element
//! type, which owns at most one block of the heap.
//!
//! The buffer manages memory only. It knows how many of its cells are in use
//! (the length marker) so that a move to another block can carry them along,
//! but what the cells mean is the business of the collection that owns the
//! buffer.

use crate::mem::growth::{
    checked_cap_next, checked_new_capacity, lemma_cap_next_grows, lemma_new_capacity_covers,
    spec_cap_next, spec_new_capacity,
};
use crate::mem::heap::{lemma_block_size_bounds, Allocator, Layout, RegionFinder};
use vstd::layout::{align_of, size_of, valid_layout};
use vstd::prelude::*;

verus! {

/// The least of three numbers.
pub open spec fn spec_min_3(v1: int, v2: int, v3: int) -> int {
    if v1 <= v2 && v1 <= v3 {
        v1
    } else if v2 <= v3 {
        v2
    } else {
        v3
    }
}

/// Returns the least of three numbers.
pub fn min_3(v1: usize, v2: usize, v3: usize) -> (r: usize)
    ensures
        r == spec_min_3(v1 as int, v2 as int, v3 as int),
{
    let m: usize = if v1 <= v2 {
        v1
    } else {
        v2
    };
    if m <= v3 {
        m
    } else {
        v3
    }
}

/// Calls the mutable range index of `Vec`, `&mut cells[start..end]`, which
/// lends the elements from `start` up to `end` for writing. The slice keeps
/// its length while it is lent, and what is written to it stands in the
/// vector afterwards; the elements outside the range stay as they are. The
/// index panics on a range that does not lie within the vector.
#[verifier::external_body]
fn range_mut<T>(cells: &mut std::vec::Vec<T>, start: usize, end: usize) -> (r: &mut [T])
    requires
        start <= end <= old(cells)@.len(),
    ensures
        r@ == old(cells)@.subrange(start as int, end as int),
        final(r)@.len() == r@.len(),
        final(cells)@ == old(cells)@.take(start as int) + final(r)@ + old(cells)@.skip(
            end as int,
        ),
{
    &mut cells[start..end]
}

/// The iterator that lends the elements of a slice for writing, as an
/// opaque value.
#[verifier::external_type_specification]
#[verifier::external_body]
#[verifier::reject_recursive_types(T)]
pub struct ExIterMut<'a, T: 'a>(core::slice::IterMut<'a, T>);

/// Calls the slice method `iter_mut`, which returns an iterator that lends
/// each element for writing. The slice keeps its length while it is lent.
#[verifier::external_body]
pub(crate) fn slice_iter_mut<'a, T>(slice: &'a mut [T]) -> (iter: core::slice::IterMut<'a, T>)
    ensures
        final(slice)@.len() == old(slice)@.len(),
{
    slice.iter_mut()
}

/// A growable run of cells of type `T`.
pub struct DynamicBuffer<T> {
    data: usize,
    cap: usize,
    step: usize,
    cells: std::vec::Vec<T>,
}

impl<T> View for DynamicBuffer<T> {
    type V = Seq<T>;

    /// The cells in use, in order.
    closed spec fn view(&self) -> Seq<T> {
        self.cells@
    }
}

impl<T> DynamicBuffer<T> {
    /// The number of cells that the buffer has room for.
    pub closed spec fn spec_capacity(&self) -> nat {
        self.cap as nat
    }

    /// The growth step: zero for geometric growth.
    pub closed spec fn spec_step(&self) -> nat {
        self.step as nat
    }

    /// The address of the buffer's block; it means nothing while the
    /// capacity is zero.
    pub closed spec fn spec_data(&self) -> usize {
        self.data
    }

    /// Whether `capacity` is a number of cells that a block can have: the
    /// block has a valid layout.
    pub open spec fn fits(capacity: nat) -> bool {
        &&& capacity <= usize::MAX
        &&& capacity * size_of::<T>() <= usize::MAX
        &&& valid_layout((capacity * size_of::<T>()) as usize, align_of::<T>() as usize)
    }

    /// The layout of a block for `capacity` cells.
    pub open spec fn spec_layout_for(capacity: nat) -> Layout {
        Layout { size: (capacity * size_of::<T>()) as usize, align: align_of::<T>() as usize }
    }

    /// The layout of the buffer's block.
    pub open spec fn spec_layout(&self) -> Layout {
        Self::spec_layout_for(self.spec_capacity())
    }

    /// The cells in use do not exceed the capacity, and the capacity has a
    /// valid layout.
    pub closed spec fn wf(&self) -> bool {
        &&& self.cells@.len() <= self.cap
        &&& Self::fits(self.cap as nat)
    }

    /// The buffer's block, if it has one, is live in `heap` under the
    /// buffer's layout.
    pub open spec fn held_in<F: RegionFinder>(&self, heap: Allocator<F>) -> bool {
        self.spec_capacity() > 0 ==> heap.holds(self.spec_data(), self.spec_layout())
    }

    /// Whether `heap`, as it stands, grants the block for `capacity` cells
    /// without asking for more memory: the capacity has a valid layout, and
    /// the engine's answer to that layout is an address.
    pub open spec fn granted_by<F: RegionFinder>(capacity: nat, heap: Allocator<F>) -> bool {
        &&& Self::fits(capacity)
        &&& heap.choice(Self::spec_layout_for(capacity)) is Some
    }

    /// Whether `heap`, as it stands, refuses the block for `capacity` cells:
    /// the capacity has no valid layout, or the engine's answer to that
    /// layout is `None`.
    pub open spec fn refused_by<F: RegionFinder>(capacity: nat, heap: Allocator<F>) -> bool {
        Self::fits(capacity) ==> heap.choice(Self::spec_layout_for(capacity)) is None
    }

    /// `blocks` with the buffer's block added.
    pub open spec fn with_block(&self, blocks: Map<usize, usize>) -> Map<usize, usize> {
        if self.spec_capacity() > 0 {
            blocks.insert(self.spec_data(), self.spec_layout().block_size() as usize)
        } else {
            blocks
        }
    }

    /// `blocks` with the buffer's block removed.
    pub open spec fn without_block(&self, blocks: Map<usize, usize>) -> Map<usize, usize> {
        if self.spec_capacity() > 0 {
            blocks.remove(self.spec_data())
        } else {
            blocks
        }
    }

    /// The number of bytes that the buffer's block takes from the heap.
    pub open spec fn block_bytes(&self) -> nat {
        if self.spec_capacity() > 0 {
            self.spec_layout().block_size()
        } else {
            0
        }
    }

    /// `after` has the block, the capacity and the step of this buffer.
    pub open spec fn same_block(&self, after: Self) -> bool {
        &&& after.spec_capacity() == self.spec_capacity()
        &&& after.spec_step() == self.spec_step()
        &&& after.spec_data() == self.spec_data()
    }

    /// `after` stands in a block of `wanted` cells that took the place of
    /// this buffer's block, and `now` is the heap `before` after that
    /// exchange: the new block was allocated, and the old one was taken back.
    /// The predicate says nothing of the cells.
    pub open spec fn rehoused<F: RegionFinder>(
        &self,
        after: Self,
        before: Allocator<F>,
        now: Allocator<F>,
        wanted: nat,
    ) -> bool {
        &&& after.spec_capacity() == wanted
        &&& after.spec_step() == self.spec_step()
        &&& wanted > 0 ==> !before.blocks().contains_key(after.spec_data())
        &&& wanted > 0 ==> after.spec_data() as int % after.spec_layout().block_size() as int == 0
        &&& now.blocks() == self.without_block(after.with_block(before.blocks()))
        &&& now.spec_allocated() + self.block_bytes() == before.spec_allocated()
            + after.block_bytes()
    }

    /// `after` is this buffer after a move to a block of `wanted` cells,
    /// and `now` is the heap `before` after that move: the new block was
    /// allocated, as many cells in use as fit were carried along, and the
    /// old block was taken back.
    pub open spec fn moved<F: RegionFinder>(
        &self,
        after: Self,
        before: Allocator<F>,
        now: Allocator<F>,
        wanted: nat,
    ) -> bool {
        &&& self.rehoused(after, before, now, wanted)
        &&& after@ == self@.take(
            spec_min_3(self@.len() as int, self.spec_capacity() as int, wanted as int),
        )
    }

    /// `now` is the heap `before` with this buffer's block added: the block
    /// was not live before, and it starts at a multiple of its size.
    pub open spec fn created<F: RegionFinder>(
        &self,
        before: Allocator<F>,
        now: Allocator<F>,
    ) -> bool {
        &&& self.spec_capacity() > 0 ==> !before.blocks().contains_key(self.spec_data())
        &&& self.spec_capacity() > 0 ==> self.spec_data() as int
            % self.spec_layout().block_size() as int == 0
        &&& now.blocks() == self.with_block(before.blocks())
        &&& now.spec_allocated() == before.spec_allocated() + self.block_bytes()
    }

    /// `after` is this buffer after a resize to `wanted` cells: nothing has
    /// changed where the capacity was `wanted` already, and otherwise the
    /// buffer has moved.
    pub open spec fn resized<F: RegionFinder>(
        &self,
        after: Self,
        before: Allocator<F>,
        now: Allocator<F>,
        wanted: nat,
    ) -> bool {
        if self.spec_capacity() == wanted {
            &&& after == *self
            &&& before.same_blocks(now)
            &&& before.same_regions(now)
        } else {
            self.moved(after, before, now, wanted)
        }
    }

    /// In a well-formed buffer the cells in use do not exceed the capacity,
    /// and the buffer's layout is valid.
    pub proof fn lemma_wf_bounds(&self)
        requires
            self.wf(),
        ensures
            self@.len() <= self.spec_capacity(),
            self.spec_capacity() <= usize::MAX,
            Self::fits(self.spec_capacity()),
            self.spec_layout().valid(),
    {
    }

    /// A move to a block that has room for the cells in use carries all of
    /// them along, unchanged and in their order: growth loses nothing.
    pub proof fn lemma_growth_keeps_cells<F: RegionFinder>(
        &self,
        after: Self,
        before: Allocator<F>,
        now: Allocator<F>,
        wanted: nat,
    )
        requires
            self.wf(),
            self.moved(after, before, now, wanted),
            self@.len() <= wanted,
        ensures
            after@ == self@,
    {
        assert(after@ =~= self@);
    }

    /// A buffer with no block and no cells. It never fails.
    pub fn empty(step: usize) -> (r: Self)
        ensures
            r.wf(),
            r@.len() == 0,
            r.spec_capacity() == 0,
            r.spec_step() == step,
    {
        vstd::layout::layout_for_type_is_valid::<T>();
        proof {
            assert(0 * size_of::<T>() == 0) by (nonlinear_arith);
            vstd::arithmetic::div_mod::lemma_mod_decreases(isize::MAX as nat, align_of::<T>());
        }
        DynamicBuffer { data: 0, cap: 0, step, cells: std::vec::Vec::new() }
    }

    /// The growth step of the buffer.
    pub fn step(&self) -> (r: usize)
        ensures
            r == self.spec_step(),
    {
        self.step
    }

    /// Whether the buffer owns a block.
    pub fn has_data(&self) -> (r: bool)
        ensures
            r == (self.spec_capacity() > 0),
    {
        self.cap > 0
    }

    /// The number of cells that the buffer has room for.
    pub fn capacity(&self) -> (r: usize)
        ensures
            r == self.spec_capacity(),
    {
        self.cap
    }

    /// Whether the buffer owns no block.
    pub fn is_empty(&self) -> (r: bool)
        ensures
            r == (self.spec_capacity() == 0),
    {
        self.cap == 0
    }

    /// The number of cells in use.
    pub fn size(&self) -> (r: usize)
        ensures
            r == self@.len(),
    {
        self.cells.len()
    }

    /// The address of the buffer's block; it means nothing while the
    /// capacity is zero.
    pub fn as_ptr(&self) -> (r: usize)
        ensures
            r == self.spec_data(),
    {
        self.data
    }

    /// The address of the buffer's block; it means nothing while the
    /// capacity is zero.
    pub fn data(&self) -> (r: usize)
        ensures
            r == self.spec_data(),
    {
        self.data
    }

    /// The layout of a block for exactly `capacity` cells, or `None` where
    /// there is no valid layout of that size.
    pub fn layout_for_exact(capacity: usize) -> (r: Option<Layout>)
        ensures
            r == (if Self::fits(capacity as nat) {
                Some(Self::spec_layout_for(capacity as nat))
            } else {
                None
            }),
    {
        vstd::layout::layout_for_type_is_valid::<T>();
        let size: usize = core::mem::size_of::<T>();
        let align: usize = core::mem::align_of::<T>();
        assert(size * capacity == capacity * size_of::<T>()) by (nonlinear_arith)
            requires
                size == size_of::<T>(),
        ;
        match size.checked_mul(capacity) {
            None => None,
            Some(bytes) => Layout::from_size_align(bytes, align),
        }
    }

    /// The layout of the block that a buffer of `capacity` cells expands to
    /// under the growth step `step`, or `None` where there is no valid layout
    /// of that size.
    pub fn layout_for(step: usize, capacity: usize) -> (r: Option<Layout>)
        ensures
            r == (if Self::fits(spec_cap_next(step as nat, capacity as nat)) {
                Some(Self::spec_layout_for(spec_cap_next(step as nat, capacity as nat)))
            } else {
                None
            }),
    {
        match checked_cap_next(step, capacity) {
            None => None,
            Some(next) => Self::layout_for_exact(next),
        }
    }

    /// The layout of the buffer's block.
    pub fn layout(&self) -> (r: Layout)
        requires
            self.wf(),
        ensures
            r == self.spec_layout(),
            r.valid(),
    {
        match Self::layout_for_exact(self.cap) {
            Some(layout) => layout,
            None => Layout::new::<T>(),
        }
    }

    /// The capacity that follows `cap` under the growth step `step`: the
    /// least capacity of the policy's shape that is greater than `cap`.
    pub fn cap_next(step: usize, cap: usize) -> (r: usize)
        requires
            spec_cap_next(step as nat, cap as nat) <= usize::MAX,
        ensures
            r == spec_cap_next(step as nat, cap as nat),
            r > cap,
    {
        proof {
            lemma_cap_next_grows(step as nat, cap as nat);
        }
        match checked_cap_next(step, cap) {
            Some(next) => next,
            None => usize::MAX,
        }
    }

    /// The capacity that a request for `cap` cells is rounded to under the
    /// growth step `step`: the least capacity of the policy's shape that is
    /// not below `cap`.
    pub fn new_capacity(step: usize, cap: usize) -> (r: usize)
        requires
            spec_new_capacity(step as nat, cap as nat) <= usize::MAX,
        ensures
            r == spec_new_capacity(step as nat, cap as nat),
            r >= cap,
    {
        proof {
            lemma_new_capacity_covers(step as nat, cap as nat);
        }
        match checked_new_capacity(step, cap) {
            Some(rounded) => rounded,
            None => usize::MAX,
        }
    }

    /// The one way in which the capacity changes: a block for `wanted` cells
    /// is allocated, the cells in use are carried along as far as they fit,
    /// and only then the old block is taken back. With `wanted == 0` the
    /// buffer gives its block back and holds none.
    fn reallocate<F: RegionFinder>(&mut self, heap: &mut Allocator<F>, wanted: usize) -> (r:
        Result<(), ()>)
        requires
            old(self).wf(),
            old(self).held_in(*old(heap)),
            old(heap).wf(),
        ensures
            final(heap).wf(),
            old(heap).same_regions(*final(heap)) || old(heap).extended(*final(heap)),
            match r {
                Ok(_) => {
                    &&& final(self).wf()
                    &&& final(self).held_in(*final(heap))
                    &&& old(self).moved(*final(self), *old(heap), *final(heap), wanted as nat)
                },
                Err(_) => {
                    &&& *final(self) == *old(self)
                    &&& old(heap).same_blocks(*final(heap))
                },
            },
            wanted == 0 ==> r is Ok,
            Self::granted_by(wanted as nat, *old(heap)) ==> r is Ok,
            r is Err ==> Self::refused_by(wanted as nat, *final(heap)),
            !Self::fits(wanted as nat) ==> r is Err,
    {
        if wanted == 0 {
            if self.cap > 0 {
                let held = self.layout();
                heap.dealloc(self.data, held);
            }
            self.cells.truncate(0);
            self.cap = 0;
            assert(final(self)@ =~= old(self)@.take(0));
            return Ok(());
        }
        let layout = match Self::layout_for_exact(wanted) {
            Some(layout) => layout,
            None => {
                return Err(());
            },
        };
        let fresh = match heap.alloc_block(layout) {
            Some(fresh) => fresh,
            None => {
                return Err(());
            },
        };
        let keep = min_3(self.cells.len(), self.cap, wanted);
        self.cells.truncate(keep);
        if self.cap > 0 {
            let held = self.layout();
            heap.dealloc(self.data, held);
        }
        self.data = fresh;
        self.cap = wanted;
        proof {
            lemma_block_size_bounds(layout.size, layout.align);
            assert(final(self)@ =~= old(self)@.take(keep as int));
        }
        Ok(())
    }

    /// A buffer with room for at least `capacity` cells, rounded by the
    /// growth policy, and no cell in use.
    ///
    /// Succeeds where the heap grants the block as it stands. Fails only
    /// where the heap refuses the block even after its recovery, and where
    /// the rounded capacity has no valid layout. Where the rounded capacity
    /// is zero nothing is allocated.
    pub fn try_with_capacity<F: RegionFinder>(
        heap: &mut Allocator<F>,
        step: usize,
        capacity: usize,
    ) -> (r: Result<Self, ()>)
        requires
            old(heap).wf(),
        ensures
            final(heap).wf(),
            old(heap).same_regions(*final(heap)) || old(heap).extended(*final(heap)),
            match r {
                Ok(buffer) => {
                    &&& buffer.wf()
                    &&& buffer.held_in(*final(heap))
                    &&& buffer@.len() == 0
                    &&& buffer.spec_step() == step
                    &&& buffer.spec_capacity() == spec_new_capacity(step as nat, capacity as nat)
                    &&& buffer.spec_capacity() >= capacity
                    &&& buffer.created(*old(heap), *final(heap))
                },
                Err(_) => old(heap).same_blocks(*final(heap)),
            },
            spec_new_capacity(step as nat, capacity as nat) == 0 ==> r is Ok,
            !Self::fits(spec_new_capacity(step as nat, capacity as nat)) ==> r is Err,
            Self::granted_by(
                spec_new_capacity(step as nat, capacity as nat),
                *old(heap),
            ) ==> r is Ok,
            r is Err ==> Self::refused_by(
                spec_new_capacity(step as nat, capacity as nat),
                *final(heap),
            ),
    {
        let mut buffer = Self::empty(step);
        proof {
            lemma_new_capacity_covers(step as nat, capacity as nat);
        }
        let wanted = match checked_new_capacity(step, capacity) {
            Some(wanted) => wanted,
            None => {
                return Err(());
            },
        };
        match buffer.reallocate(heap, wanted) {
            Ok(_) => Ok(buffer),
            Err(_) => Err(()),
        }
    }

    /// As `try_with_capacity`. The cells of the new block are not in use, so
    /// none of them holds a value that could be told from zeroes.
    pub fn try_with_capaity_zeroed<F: RegionFinder>(
        heap: &mut Allocator<F>,
        step: usize,
        capacity: usize,
    ) -> (r: Result<Self, ()>)
        requires
            old(heap).wf(),
        ensures
            final(heap).wf(),
            old(heap).same_regions(*final(heap)) || old(heap).extended(*final(heap)),
            match r {
                Ok(buffer) => {
                    &&& buffer.wf()
                    &&& buffer.held_in(*final(heap))
                    &&& buffer@.len() == 0
                    &&& buffer.spec_step() == step
                    &&& buffer.spec_capacity() == spec_new_capacity(step as nat, capacity as nat)
                    &&& buffer.spec_capacity() >= capacity
                    &&& buffer.created(*old(heap), *final(heap))
                },
                Err(_) => old(heap).same_blocks(*final(heap)),
            },
            spec_new_capacity(step as nat, capacity as nat) == 0 ==> r is Ok,
            !Self::fits(spec_new_capacity(step as nat, capacity as nat)) ==> r is Err,
            Self::granted_by(
                spec_new_capacity(step as nat, capacity as nat),
                *old(heap),
            ) ==> r is Ok,
            r is Err ==> Self::refused_by(
                spec_new_capacity(step as nat, capacity as nat),
                *final(heap),
            ),
    {
        Self::try_with_capacity(heap, step, capacity)
    }

    /// Moves the buffer to a block for `size` cells, rounded by the growth
    /// policy. Nothing happens where the capacity is that rounded size
    /// already. The cells in use are carried along as far as they fit.
    ///
    /// Succeeds where the heap grants the block as it stands. Fails, with
    /// the buffer as it was, only where the heap refuses the block even
    /// after its recovery, and where the rounded size has no valid layout.
    pub fn try_resize<F: RegionFinder>(&mut self, heap: &mut Allocator<F>, size: usize) -> (r:
        Result<(), ()>)
        requires
            old(self).wf(),
            old(self).held_in(*old(heap)),
            old(heap).wf(),
        ensures
            final(heap).wf(),
            old(heap).same_regions(*final(heap)) || old(heap).extended(*final(heap)),
            match r {
                Ok(_) => {
                    &&& final(self).wf()
                    &&& final(self).held_in(*final(heap))
                    &&& final(self).spec_capacity() == spec_new_capacity(
                        old(self).spec_step(),
                        size as nat,
                    )
                    &&& final(self).spec_capacity() >= size
                    &&& old(self).resized(
                        *final(self),
                        *old(heap),
                        *final(heap),
                        spec_new_capacity(old(self).spec_step(), size as nat),
                    )
                },
                Err(_) => {
                    &&& *final(self) == *old(self)
                    &&& old(heap).same_blocks(*final(heap))
                },
            },
            spec_new_capacity(old(self).spec_step(), size as nat) == 0 ==> r is Ok,
            spec_new_capacity(old(self).spec_step(), size as nat) == old(self).spec_capacity()
                ==> r is Ok,
            !Self::fits(spec_new_capacity(old(self).spec_step(), size as nat)) ==> r is Err,
            Self::granted_by(
                spec_new_capacity(old(self).spec_step(), size as nat),
                *old(heap),
            ) ==> r is Ok,
            r is Err ==> Self::refused_by(
                spec_new_capacity(old(self).spec_step(), size as nat),
                *final(heap),
            ),
    {
        proof {
            lemma_new_capacity_covers(self.step as nat, size as nat);
        }
        let wanted = match checked_new_capacity(self.step, size) {
            Some(wanted) => wanted,
            None => {
                return Err(());
            },
        };
        if self.cap == wanted {
            return Ok(());
        }
        self.reallocate(heap, wanted)
    }

    /// Moves the buffer to a block for exactly `size` cells. Nothing
    /// happens where the capacity is `size` already. The cells in use are
    /// carried along as far as they fit.
    ///
    /// Succeeds where the heap grants the block as it stands. Fails, with
    /// the buffer as it was, only where the heap refuses the block even
    /// after its recovery, and where `size` has no valid layout.
    pub fn try_resize_exact<F: RegionFinder>(
        &mut self,
        heap: &mut Allocator<F>,
        size: usize,
    ) -> (r: Result<(), ()>)
        requires
            old(self).wf(),
            old(self).held_in(*old(heap)),
            old(heap).wf(),
        ensures
            final(heap).wf(),
            old(heap).same_regions(*final(heap)) || old(heap).extended(*final(heap)),
            match r {
                Ok(_) => {
                    &&& final(self).wf()
                    &&& final(self).held_in(*final(heap))
                    &&& final(self).spec_capacity() == size
                    &&& old(self).resized(*final(self), *old(heap), *final(heap), size as nat)
                },
                Err(_) => {
                    &&& *final(self) == *old(self)
                    &&& old(heap).same_blocks(*final(heap))
                },
            },
            size == 0 ==> r is Ok,
            size == old(self).spec_capacity() ==> r is Ok,
            !Self::fits(size as nat) ==> r is Err,
            Self::granted_by(
                size as nat,
                *old(heap),
            ) ==> r is Ok,
            r is Err ==> Self::refused_by(
                size as nat,
                *final(heap),
            ),
    {
        if self.cap == size {
            return Ok(());
        }
        self.reallocate(heap, size)
    }

    /// Moves the buffer to the capacity that follows its own under the
    /// growth policy. The buffer always moves, and all cells in use are
    /// carried along.
    ///
    /// Succeeds where the heap grants the block as it stands. Fails, with
    /// the buffer as it was, where the heap refuses the block even after its
    /// recovery, and where the next capacity has no valid layout.
    pub fn try_expand<F: RegionFinder>(&mut self, heap: &mut Allocator<F>) -> (r: Result<(), ()>)
        requires
            old(self).wf(),
            old(self).held_in(*old(heap)),
            old(heap).wf(),
        ensures
            final(heap).wf(),
            old(heap).same_regions(*final(heap)) || old(heap).extended(*final(heap)),
            match r {
                Ok(_) => {
                    &&& final(self).wf()
                    &&& final(self).held_in(*final(heap))
                    &&& final(self).spec_capacity() > old(self).spec_capacity()
                    &&& final(self)@ == old(self)@
                    &&& old(self).moved(
                        *final(self),
                        *old(heap),
                        *final(heap),
                        spec_cap_next(old(self).spec_step(), old(self).spec_capacity()),
                    )
                },
                Err(_) => {
                    &&& *final(self) == *old(self)
                    &&& old(heap).same_blocks(*final(heap))
                },
            },
            !Self::fits(spec_cap_next(old(self).spec_step(), old(self).spec_capacity())) ==> r
                is Err,
            Self::granted_by(
                spec_cap_next(old(self).spec_step(), old(self).spec_capacity()),
                *old(heap),
            ) ==> r is Ok,
            r is Err ==> Self::refused_by(
                spec_cap_next(old(self).spec_step(), old(self).spec_capacity()),
                *final(heap),
            ),
    {
        proof {
            lemma_cap_next_grows(self.step as nat, self.cap as nat);
        }
        let wanted = match checked_cap_next(self.step, self.cap) {
            Some(wanted) => wanted,
            None => {
                return Err(());
            },
        };
        let r = self.reallocate(heap, wanted);
        proof {
            if r is Ok {
                assert(final(self)@ =~= old(self)@);
            }
        }
        r
    }

    /// The capacity that `try_expand_by` moves a buffer of `cap` cells to:
    /// the capacity that follows `cap + step * steps`.
    pub open spec fn spec_expanded_by(step: nat, cap: nat, steps: nat) -> nat {
        spec_cap_next(step, cap + step * steps)
    }

    /// Moves the buffer to the capacity that follows its own enlarged by
    /// `steps` growth steps. The buffer always moves, and all cells in use
    /// are carried along.
    ///
    /// Succeeds where the heap grants the block as it stands. Fails, with
    /// the buffer as it was, where the heap refuses the block even after its
    /// recovery, and where the new capacity has no valid layout.
    pub fn try_expand_by<F: RegionFinder>(
        &mut self,
        heap: &mut Allocator<F>,
        steps: usize,
    ) -> (r: Result<(), ()>)
        requires
            old(self).wf(),
            old(self).held_in(*old(heap)),
            old(heap).wf(),
        ensures
            final(heap).wf(),
            old(heap).same_regions(*final(heap)) || old(heap).extended(*final(heap)),
            match r {
                Ok(_) => {
                    &&& final(self).wf()
                    &&& final(self).held_in(*final(heap))
                    &&& final(self).spec_capacity() > old(self).spec_capacity()
                    &&& final(self)@ == old(self)@
                    &&& old(self).moved(
                        *final(self),
                        *old(heap),
                        *final(heap),
                        Self::spec_expanded_by(
                            old(self).spec_step(),
                            old(self).spec_capacity(),
                            steps as nat,
                        ),
                    )
                },
                Err(_) => {
                    &&& *final(self) == *old(self)
                    &&& old(heap).same_blocks(*final(heap))
                },
            },
            !Self::fits(
                Self::spec_expanded_by(
                    old(self).spec_step(),
                    old(self).spec_capacity(),
                    steps as nat,
                ),
            ) ==> r is Err,
            Self::granted_by(
                Self::spec_expanded_by(
                    old(self).spec_step(),
                    old(self).spec_capacity(),
                    steps as nat,
                ),
                *old(heap),
            ) ==> r is Ok,
            r is Err ==> Self::refused_by(
                Self::spec_expanded_by(
                    old(self).spec_step(),
                    old(self).spec_capacity(),
                    steps as nat,
                ),
                *final(heap),
            ),
    {
        let ghost target = Self::spec_expanded_by(self.step as nat, self.cap as nat, steps as nat);
        proof {
            lemma_cap_next_grows(self.step as nat, (self.cap + self.step * steps) as nat);
            assert(self.step * steps >= 0) by (nonlinear_arith);
        }
        let extra = match self.step.checked_mul(steps) {
            Some(extra) => extra,
            None => {
                return Err(());
            },
        };
        let base = match self.cap.checked_add(extra) {
            Some(base) => base,
            None => {
                return Err(());
            },
        };
        let wanted = match checked_cap_next(self.step, base) {
            Some(wanted) => wanted,
            None => {
                return Err(());
            },
        };
        let r = self.reallocate(heap, wanted);
        proof {
            if r is Ok {
                assert(final(self)@ =~= old(self)@);
            }
        }
        r
    }

    /// A buffer of the same capacity and step in a block of its own, with no
    /// cell in use: the clone copies the shape and no content.
    ///
    /// Succeeds where the heap grants the block as it stands, and fails
    /// only where the heap refuses the block even after its recovery. A
    /// buffer without a block is cloned without asking the heap.
    pub fn try_clone<F: RegionFinder>(&self, heap: &mut Allocator<F>) -> (r: Result<Self, ()>)
        requires
            self.wf(),
            self.held_in(*old(heap)),
            old(heap).wf(),
        ensures
            final(heap).wf(),
            old(heap).same_regions(*final(heap)) || old(heap).extended(*final(heap)),
            self.held_in(*final(heap)),
            match r {
                Ok(copy) => {
                    &&& copy.wf()
                    &&& copy.held_in(*final(heap))
                    &&& copy@.len() == 0
                    &&& copy.spec_step() == self.spec_step()
                    &&& copy.spec_capacity() == self.spec_capacity()
                    &&& copy.created(*old(heap), *final(heap))
                },
                Err(_) => old(heap).same_blocks(*final(heap)),
            },
            self.spec_capacity() == 0 ==> r is Ok,
            Self::granted_by(
                self.spec_capacity(),
                *old(heap),
            ) ==> r is Ok,
            r is Err ==> Self::refused_by(
                self.spec_capacity(),
                *final(heap),
            ),
    {
        let mut copy = Self::empty(self.step);
        match copy.reallocate(heap, self.cap) {
            Ok(_) => Ok(copy),
            Err(_) => Err(()),
        }
    }

    /// Gives the buffer's block back to the heap and ends the buffer.
    pub fn release<F: RegionFinder>(self, heap: &mut Allocator<F>)
        requires
            self.wf(),
            self.held_in(*old(heap)),
            old(heap).wf(),
        ensures
            final(heap).wf(),
            old(heap).same_regions(*final(heap)),
            final(heap).blocks() == self.without_block(old(heap).blocks()),
            final(heap).spec_allocated() + self.block_bytes() == old(heap).spec_allocated(),
    {
        if self.cap > 0 {
            let held = self.layout();
            heap.dealloc(self.data, held);
        }
    }

    /// A buffer over the block at `addr`, which the caller owns and which
    /// was allocated for `layout`. The capacity is the number of whole cells
    /// in `layout.size` bytes, and no cell is in use.
    ///
    /// Fails where `T` has no size, where `addr` is not aligned for `T`, and
    /// where the capacity has no valid layout.
    pub fn from_raw_parts(addr: usize, layout: Layout, step: usize) -> (r: Result<Self, ()>)
        ensures
            r is Ok <==> {
                &&& size_of::<T>() > 0
                &&& addr as int % align_of::<T>() as int == 0
                &&& Self::fits((layout.size as int / size_of::<T>() as int) as nat)
            },
            r matches Ok(buffer) ==> {
                &&& buffer.wf()
                &&& buffer@.len() == 0
                &&& buffer.spec_step() == step
                &&& buffer.spec_data() == addr
                &&& buffer.spec_capacity() == layout.size as int / size_of::<T>() as int
            },
    {
        vstd::layout::layout_for_type_is_valid::<T>();
        let size: usize = core::mem::size_of::<T>();
        let align: usize = core::mem::align_of::<T>();
        if size == 0 || addr % align != 0 {
            return Err(());
        }
        let cap: usize = layout.size / size;
        match Self::layout_for_exact(cap) {
            None => Err(()),
            Some(_) => Ok(DynamicBuffer { data: addr, cap, step, cells: std::vec::Vec::new() }),
        }
    }

    /// Ends the buffer without giving its block back: the caller takes over
    /// the block's address and capacity, and the cells that were in use.
    pub fn into_raw_parts(self) -> (r: (usize, usize, std::vec::Vec<T>))
        requires
            self.spec_capacity() > 0,
        ensures
            r.0 == self.spec_data(),
            r.1 == self.spec_capacity(),
            r.2@ == self@,
    {
        (self.data, self.cap, self.cells)
    }
}

/// The cells of a buffer, for the collection that owns it. Each operation
/// changes the cells in use and leaves the block alone; the caller keeps the
/// cells in use within the capacity.
impl<T> DynamicBuffer<T> {
    /// The cells in use.
    pub(crate) fn cells(&self) -> (r: &[T])
        ensures
            r@ == self@,
    {
        self.cells.as_slice()
    }

    /// The cells from `start` up to `end`, for writing.
    pub(crate) fn cells_mut(&mut self, start: usize, end: usize) -> (r: &mut [T])
        requires
            old(self).wf(),
            start <= end <= old(self)@.len(),
        ensures
            r@ == old(self)@.subrange(start as int, end as int),
            final(r)@.len() == r@.len(),
            final(self)@ == old(self)@.take(start as int) + final(r)@ + old(self)@.skip(
                end as int,
            ),
            final(self)@.len() == old(self)@.len(),
            old(self).same_block(*final(self)),
            final(self).wf(),
    {
        range_mut(&mut self.cells, start, end)
    }

    /// The cell at `index`, for writing.
    pub(crate) fn cell_mut(&mut self, index: usize) -> (r: &mut T)
        requires
            old(self).wf(),
            index < old(self)@.len(),
        ensures
            *r == old(self)@[index as int],
            final(self)@ == old(self)@.update(index as int, *final(r)),
            old(self).same_block(*final(self)),
            final(self).wf(),
    {
        &mut self.cells[index]
    }

    /// Puts `val` into the first cell that is not in use.
    pub(crate) fn push_cell(&mut self, val: T)
        requires
            old(self).wf(),
            old(self)@.len() < old(self).spec_capacity(),
        ensures
            final(self).wf(),
            old(self).same_block(*final(self)),
            final(self)@ == old(self)@.push(val),
    {
        self.cells.push(val);
    }

    /// Takes the value out of the last cell in use.
    pub(crate) fn pop_cell(&mut self) -> (r: Option<T>)
        requires
            old(self).wf(),
        ensures
            final(self).wf(),
            old(self).same_block(*final(self)),
            match r {
                Some(val) => {
                    &&& old(self)@.len() > 0
                    &&& val == old(self)@.last()
                    &&& final(self)@ == old(self)@.drop_last()
                },
                None => {
                    &&& old(self)@.len() == 0
                    &&& final(self)@ == old(self)@
                },
            },
    {
        self.cells.pop()
    }

    /// Puts `val` into the cell at `index`, shifting the cells behind it.
    pub(crate) fn insert_cell(&mut self, index: usize, val: T)
        requires
            old(self).wf(),
            index <= old(self)@.len(),
            old(self)@.len() < old(self).spec_capacity(),
        ensures
            final(self).wf(),
            old(self).same_block(*final(self)),
            final(self)@ == old(self)@.insert(index as int, val),
    {
        self.cells.insert(index, val);
    }

    /// Takes the value out of the cell at `index`, shifting the cells behind
    /// it.
    pub(crate) fn remove_cell(&mut self, index: usize) -> (r: T)
        requires
            old(self).wf(),
            index < old(self)@.len(),
        ensures
            final(self).wf(),
            old(self).same_block(*final(self)),
            r == old(self)@[index as int],
            final(self)@ == old(self)@.remove(index as int),
    {
        self.cells.remove(index)
    }

    /// Puts `val` into the cell at `index` and returns the value that was
    /// there.
    pub(crate) fn replace_cell(&mut self, index: usize, val: T) -> (r: T)
        requires
            old(self).wf(),
            index < old(self)@.len(),
        ensures
            final(self).wf(),
            old(self).same_block(*final(self)),
            r == old(self)@[index as int],
            final(self)@ == old(self)@.update(index as int, val),
    {
        self.cells.push(val);
        let r = self.cells.swap_remove(index);
        assert(self.cells@ =~= old(self)@.update(index as int, val));
        r
    }

    /// Ends the use of all cells from `len` on.
    pub(crate) fn truncate_cells(&mut self, len: usize)
        requires
            old(self).wf(),
        ensures
            final(self).wf(),
            old(self).same_block(*final(self)),
            final(self)@ == old(self)@.take(
                if len <= old(self)@.len() {
                    len as int
                } else {
                    old(self)@.len() as int
                },
            ),
    {
        self.cells.truncate(len);
        assert(self.cells@ =~= old(self)@.take(
            if len <= old(self)@.len() {
                len as int
            } else {
                old(self)@.len() as int
            },
        ));
    }

    /// Takes the values out of all cells from `at` on.
    pub(crate) fn split_cells(&mut self, at: usize) -> (r: std::vec::Vec<T>)
        requires
            old(self).wf(),
            at <= old(self)@.len(),
        ensures
            final(self).wf(),
            old(self).same_block(*final(self)),
            final(self)@ == old(self)@.take(at as int),
            r@ == old(self)@.skip(at as int),
    {
        let r = self.cells.split_off(at);
        assert(self.cells@ =~= old(self)@.take(at as int));
        assert(r@ =~= old(self)@.skip(at as int));
        r
    }

    /// Moves the values of `more` into the cells behind those in use.
    pub(crate) fn append_cells(&mut self, more: &mut std::vec::Vec<T>)
        requires
            old(self).wf(),
            old(self)@.len() + old(more)@.len() <= old(self).spec_capacity(),
        ensures
            final(self).wf(),
            old(self).same_block(*final(self)),
            final(self)@ == old(self)@ + old(more)@,
            final(more)@.len() == 0,
    {
        self.cells.append(more);
    }
}

impl<T: Copy> DynamicBuffer<T> {
    /// Copies the values of `src` into the cells behind those in use.
    pub(crate) fn extend_cells(&mut self, src: &[T])
        requires
            old(self).wf(),
            old(self)@.len() + src@.len() <= old(self).spec_capacity(),
        ensures
            final(self).wf(),
            old(self).same_block(*final(self)),
            final(self)@ == old(self)@ + src@,
    {
        let mut i: usize = 0;
        while i < src.len()
            invariant
                self.wf(),
                old(self).same_block(*self),
                i <= src@.len(),
                old(self)@.len() + src@.len() <= old(self).spec_capacity(),
                self@ == old(self)@ + src@.take(i as int),
            decreases src@.len() - i,
        {
            self.cells.push(src[i]);
            assert(self@ =~= old(self)@ + src@.take(i + 1));
            i = i + 1;
        }
        assert(src@.take(i as int) =~= src@);
    }

    /// Copies the values of `src` into the cells from `index` on, shifting
    /// the cells behind them.
    pub(crate) fn insert_cells(&mut self, index: usize, src: &[T])
        requires
            old(self).wf(),
            index <= old(self)@.len(),
            old(self)@.len() + src@.len() <= old(self).spec_capacity(),
        ensures
            final(self).wf(),
            old(self).same_block(*final(self)),
            final(self)@ == old(self)@.take(index as int) + src@ + old(self)@.skip(index as int),
    {
        let mut tail = self.split_cells(index);
        self.extend_cells(src);
        self.append_cells(&mut tail);
    }

    /// Ends the use of the cells from `start` up to `end`, shifting the
    /// cells behind them.
    pub(crate) fn remove_cells(&mut self, start: usize, end: usize)
        requires
            old(self).wf(),
            start <= end <= old(self)@.len(),
        ensures
            final(self).wf(),
            old(self).same_block(*final(self)),
            final(self)@ == old(self)@.take(start as int) + old(self)@.skip(end as int),
    {
        let mut tail = self.split_cells(end);
        self.truncate_cells(start);
        assert(self@ =~= old(self)@.take(start as int));
        self.append_cells(&mut tail);
    }
}

} // verus!
