//! The box: the exclusive owner of one value in one block of the heap.
//!
//! A box skips the bookkeeping of a buffer: its block is the block for one
//! `T`, allocated when the box is made and given back when it is released.

use crate::mem::heap::{Allocator, Layout, RegionFinder};
use crate::{try_clone_refused, try_cloned, TryClone};
use core::marker::PhantomData;
use vstd::layout::{align_of, size_of};
use vstd::prelude::*;

verus! {

/// The layout of the block of one `T`.
pub open spec fn spec_layout_of<T>() -> Layout {
    Layout { size: size_of::<T>() as usize, align: align_of::<T>() as usize }
}

/// The owner of one `T` on the heap.
pub struct Box<T> {
    data: usize,
    value: T,
}

/// A block for one `T` that holds no value yet. It becomes a box when the
/// caller says which value the block holds.
pub struct UninitBox<T> {
    data: usize,
    zeroed: bool,
    marker: PhantomData<T>,
}

impl<T> View for Box<T> {
    type V = T;

    /// The value in the box.
    closed spec fn view(&self) -> T {
        self.value
    }
}

impl<T> UninitBox<T> {
    /// The address of the block.
    pub closed spec fn spec_addr(&self) -> usize {
        self.data
    }

    /// Whether the block was asked for as zeroed memory.
    pub closed spec fn spec_zeroed(&self) -> bool {
        self.zeroed
    }

    /// The block's address is aligned for `T`.
    pub open spec fn wf(&self) -> bool {
        self.spec_addr() as int % align_of::<T>() as int == 0
    }

    /// The block is live in `heap` under the layout of `T`.
    pub open spec fn held_in<F: RegionFinder>(&self, heap: Allocator<F>) -> bool {
        heap.holds(self.spec_addr(), spec_layout_of::<T>())
    }

    /// The address of the block.
    pub fn as_ptr(&self) -> (r: usize)
        ensures
            r == self.spec_addr(),
    {
        self.data
    }

    /// Whether the block was asked for as zeroed memory.
    pub fn is_zeroed(&self) -> (r: bool)
        ensures
            r == self.spec_zeroed(),
    {
        self.zeroed
    }

    /// Turns the block into a box of `val`: the caller's word that this is
    /// the value the block holds.
    pub fn assume_init(self, val: T) -> (r: Box<T>)
        ensures
            r@ == val,
            r.spec_addr() == self.spec_addr(),
            self.wf() ==> r.wf(),
    {
        Box { data: self.data, value: val }
    }
}

impl<T> Box<T> {
    /// The address of the box's block.
    pub closed spec fn spec_addr(&self) -> usize {
        self.data
    }

    /// The box's address is aligned for `T`. Every box that the library
    /// makes is well formed, and a box stays so while it lives.
    pub open spec fn wf(&self) -> bool {
        self.spec_addr() as int % align_of::<T>() as int == 0
    }

    /// The box's block is live in `heap` under the layout of `T`.
    pub open spec fn held_in<F: RegionFinder>(&self, heap: Allocator<F>) -> bool {
        heap.holds(self.spec_addr(), spec_layout_of::<T>())
    }

    /// `now` is the heap `before` with the block at `addr` for one `T`
    /// added.
    pub open spec fn boxed_in<F: RegionFinder>(
        addr: usize,
        before: Allocator<F>,
        now: Allocator<F>,
    ) -> bool {
        &&& before.grants(now, addr, spec_layout_of::<T>())
        &&& addr as int % align_of::<T>() as int == 0
    }

    /// The layout of the block of a box: the size and alignment of one `T`.
    pub fn layout() -> (r: Layout)
        ensures
            r == spec_layout_of::<T>(),
            r.size == size_of::<T>(),
            r.align == align_of::<T>(),
            r.valid(),
    {
        Layout::new::<T>()
    }

    /// A box of `val` in a block of its own.
    ///
    /// Fails where the heap refuses the block; `val` is then dropped.
    pub fn try_new<F: RegionFinder>(heap: &mut Allocator<F>, val: T) -> (r: Result<Self, ()>)
        requires
            old(heap).wf(),
        ensures
            final(heap).wf(),
            old(heap).choice(spec_layout_of::<T>()) is Some ==> {
                &&& r matches Ok(boxed)
                &&& Some(boxed.spec_addr()) == old(heap).choice(spec_layout_of::<T>())
                &&& old(heap).same_regions(*final(heap))
            },
            r is Err ==> final(heap).choice(spec_layout_of::<T>()) is None,
            old(heap).same_regions(*final(heap)) || old(heap).extended(*final(heap)),
            match r {
                Ok(boxed) => {
                    &&& boxed@ == val
                    &&& boxed.wf()
                    &&& boxed.held_in(*final(heap))
                    &&& Self::boxed_in(boxed.spec_addr(), *old(heap), *final(heap))
                },
                Err(_) => old(heap).same_blocks(*final(heap)),
            },
    {
        heap.allocate(val)
    }

    /// A block for one `T` with no value in it.
    ///
    /// Fails where the heap refuses the block.
    pub fn try_new_uninit<F: RegionFinder>(heap: &mut Allocator<F>) -> (r: Result<
        UninitBox<T>,
        (),
    >)
        requires
            old(heap).wf(),
        ensures
            final(heap).wf(),
            old(heap).choice(spec_layout_of::<T>()) is Some ==> {
                &&& r matches Ok(block)
                &&& Some(block.spec_addr()) == old(heap).choice(spec_layout_of::<T>())
                &&& old(heap).same_regions(*final(heap))
            },
            r is Err ==> final(heap).choice(spec_layout_of::<T>()) is None,
            old(heap).same_regions(*final(heap)) || old(heap).extended(*final(heap)),
            match r {
                Ok(block) => {
                    &&& !block.spec_zeroed()
                    &&& block.wf()
                    &&& block.held_in(*final(heap))
                    &&& Self::boxed_in(block.spec_addr(), *old(heap), *final(heap))
                },
                Err(_) => old(heap).same_blocks(*final(heap)),
            },
    {
        heap.allocate_uninit()
    }

    /// A block for one `T` that was asked for as zeroed memory, with no
    /// value in it.
    ///
    /// Fails where the heap refuses the block.
    pub fn try_new_zeroed<F: RegionFinder>(heap: &mut Allocator<F>) -> (r: Result<
        UninitBox<T>,
        (),
    >)
        requires
            old(heap).wf(),
        ensures
            final(heap).wf(),
            old(heap).choice(spec_layout_of::<T>()) is Some ==> {
                &&& r matches Ok(block)
                &&& Some(block.spec_addr()) == old(heap).choice(spec_layout_of::<T>())
                &&& old(heap).same_regions(*final(heap))
            },
            r is Err ==> final(heap).choice(spec_layout_of::<T>()) is None,
            old(heap).same_regions(*final(heap)) || old(heap).extended(*final(heap)),
            match r {
                Ok(block) => {
                    &&& block.spec_zeroed()
                    &&& block.wf()
                    &&& block.held_in(*final(heap))
                    &&& Self::boxed_in(block.spec_addr(), *old(heap), *final(heap))
                },
                Err(_) => old(heap).same_blocks(*final(heap)),
            },
    {
        let layout = Self::layout();
        match heap.alloc_zeroed(layout) {
            Some(addr) => {
                proof {
                    crate::mem::heap::lemma_block_size_bounds(layout.size, layout.align);
                    lemma_aligned_to_block(layout, addr as int);
                }
                Ok(UninitBox { data: addr, zeroed: true, marker: PhantomData })
            },
            None => Err(()),
        }
    }

    /// A box of `val` over the block at `addr`, which the caller owns and
    /// which was allocated for one `T`.
    ///
    /// Fails where `addr` is not aligned for `T`.
    pub fn from_non_null(addr: usize, val: T) -> (r: Result<Self, ()>)
        ensures
            r is Ok <==> addr as int % align_of::<T>() as int == 0,
            r matches Ok(boxed) ==> boxed@ == val && boxed.spec_addr() == addr && boxed.wf(),
    {
        vstd::layout::layout_for_type_is_valid::<T>();
        if addr % core::mem::align_of::<T>() != 0 {
            return Err(());
        }
        Ok(Box { data: addr, value: val })
    }

    /// Ends the box without giving its block back: the caller takes over
    /// the block's address and the value. The address of a well-formed box
    /// is aligned for `T`, so `from_non_null` makes a box of it again.
    pub fn into_non_null(self) -> (r: (usize, T))
        ensures
            r.0 == self.spec_addr(),
            r.1 == self@,
            self.wf() ==> r.0 as int % align_of::<T>() as int == 0,
    {
        (self.data, self.value)
    }

    /// The address of the box's block.
    pub fn as_ptr(&self) -> (r: usize)
        ensures
            r == self.spec_addr(),
    {
        self.data
    }

    /// The address of the box's block.
    pub fn as_mut_ptr(&mut self) -> (r: usize)
        ensures
            r == old(self).spec_addr(),
            *final(self) == *old(self),
    {
        self.data
    }

    /// Gives up the box without giving its block back: the block stays live
    /// in the heap for good, and the value goes to the caller.
    pub fn leak(self) -> (r: T)
        ensures
            r == self@,
    {
        self.value
    }

    /// The value in the box.
    pub fn as_ref(&self) -> (r: &T)
        ensures
            *r == self@,
    {
        &self.value
    }

    /// The value in the box.
    pub fn deref(&self) -> (r: &T)
        ensures
            *r == self@,
    {
        &self.value
    }

    /// The value in the box, for writing.
    pub fn deref_mut(&mut self) -> (r: &mut T)
        ensures
            *r == old(self)@,
            final(self)@ == *final(r),
            final(self).spec_addr() == old(self).spec_addr(),
    {
        &mut self.value
    }

    /// Puts `val` into the box and returns the value that was there. The
    /// box keeps its block.
    pub fn replace(&mut self, val: T) -> (r: T)
        ensures
            r == old(self)@,
            final(self)@ == val,
            final(self).spec_addr() == old(self).spec_addr(),
    {
        let mut held = val;
        core::mem::swap(&mut self.value, &mut held);
        held
    }

    /// Drops the value, gives the block back to the heap and ends the box.
    pub fn release<F: RegionFinder>(self, heap: &mut Allocator<F>)
        requires
            self.held_in(*old(heap)),
            old(heap).wf(),
        ensures
            final(heap).wf(),
            old(heap).same_regions(*final(heap)),
            final(heap).blocks() == old(heap).blocks().remove(self.spec_addr()),
            final(heap).spec_allocated() + spec_layout_of::<T>().block_size() == old(
                heap,
            ).spec_allocated(),
    {
        heap.delete(self);
    }
}

/// A block starts at a multiple of its size, and so at a multiple of the
/// alignment that it was asked for.
pub proof fn lemma_aligned_to_block(layout: Layout, addr: int)
    requires
        layout.valid(),
        addr % layout.block_size() as int == 0,
    ensures
        addr % layout.align as int == 0,
{
    crate::mem::heap::lemma_block_size_bounds(layout.size, layout.align);
    crate::mem::growth::lemma_pow2_positive(layout.align as int);
    crate::mem::growth::lemma_pow2_divides(layout.align as int, layout.block_size() as int);
    vstd::arithmetic::div_mod::lemma_mod_mod(
        addr,
        layout.align as int,
        layout.block_size() as int / layout.align as int,
    );
}

impl<F: RegionFinder> Allocator<F> {
    /// Allocates the block for one `T` and puts `val` into it.
    ///
    /// Fails where no block can be had; `val` is then dropped.
    pub fn allocate<T>(&mut self, val: T) -> (r: Result<Box<T>, ()>)
        requires
            old(self).wf(),
        ensures
            final(self).wf(),
            old(self).choice(spec_layout_of::<T>()) is Some ==> {
                &&& r matches Ok(boxed)
                &&& Some(boxed.spec_addr()) == old(self).choice(spec_layout_of::<T>())
                &&& old(self).same_regions(*final(self))
            },
            r is Err ==> final(self).choice(spec_layout_of::<T>()) is None,
            old(self).same_regions(*final(self)) || old(self).extended(*final(self)),
            match r {
                Ok(boxed) => {
                    &&& boxed@ == val
                    &&& boxed.wf()
                    &&& boxed.held_in(*final(self))
                    &&& Box::<T>::boxed_in(boxed.spec_addr(), *old(self), *final(self))
                },
                Err(_) => old(self).same_blocks(*final(self)),
            },
    {
        let layout = Layout::new::<T>();
        match self.alloc_block(layout) {
            Some(addr) => {
                proof {
                    crate::mem::heap::lemma_block_size_bounds(layout.size, layout.align);
                    lemma_aligned_to_block(layout, addr as int);
                }
                Ok(Box { data: addr, value: val })
            },
            None => Err(()),
        }
    }

    /// Allocates the block for one `T` and puts nothing into it.
    ///
    /// Fails where no block can be had.
    pub fn allocate_uninit<T>(&mut self) -> (r: Result<UninitBox<T>, ()>)
        requires
            old(self).wf(),
        ensures
            final(self).wf(),
            old(self).choice(spec_layout_of::<T>()) is Some ==> {
                &&& r matches Ok(block)
                &&& Some(block.spec_addr()) == old(self).choice(spec_layout_of::<T>())
                &&& old(self).same_regions(*final(self))
            },
            r is Err ==> final(self).choice(spec_layout_of::<T>()) is None,
            old(self).same_regions(*final(self)) || old(self).extended(*final(self)),
            match r {
                Ok(block) => {
                    &&& !block.spec_zeroed()
                    &&& block.wf()
                    &&& block.held_in(*final(self))
                    &&& Box::<T>::boxed_in(block.spec_addr(), *old(self), *final(self))
                },
                Err(_) => old(self).same_blocks(*final(self)),
            },
    {
        let layout = Layout::new::<T>();
        match self.alloc_block(layout) {
            Some(addr) => {
                proof {
                    crate::mem::heap::lemma_block_size_bounds(layout.size, layout.align);
                    lemma_aligned_to_block(layout, addr as int);
                }
                Ok(UninitBox { data: addr, zeroed: false, marker: PhantomData })
            },
            None => Err(()),
        }
    }

    /// Drops the value of `boxed` first, and then takes its block back.
    pub fn delete<T>(&mut self, boxed: Box<T>)
        requires
            old(self).wf(),
            boxed.held_in(*old(self)),
        ensures
            final(self).wf(),
            old(self).same_regions(*final(self)),
            final(self).blocks() == old(self).blocks().remove(boxed.spec_addr()),
            final(self).spec_allocated() + spec_layout_of::<T>().block_size() == old(
                self,
            ).spec_allocated(),
    {
        let layout = Layout::new::<T>();
        let Box { data, value } = boxed;
        {
            let torn_down = value;
        }
        self.dealloc(data, layout);
    }
}

impl<T: Clone> Box<T> {
    /// A box of a clone of the value, in a block of its own.
    ///
    /// Fails where the heap refuses the block.
    pub fn clone<F: RegionFinder>(&self, heap: &mut Allocator<F>) -> (r: Result<Self, ()>)
        requires
            self.held_in(*old(heap)),
            old(heap).wf(),
        ensures
            final(heap).wf(),
            old(heap).choice(spec_layout_of::<T>()) is Some ==> {
                &&& r matches Ok(copy)
                &&& Some(copy.spec_addr()) == old(heap).choice(spec_layout_of::<T>())
                &&& old(heap).same_regions(*final(heap))
            },
            r is Err ==> final(heap).choice(spec_layout_of::<T>()) is None,
            old(heap).same_regions(*final(heap)) || old(heap).extended(*final(heap)),
            self.held_in(*final(heap)),
            match r {
                Ok(copy) => {
                    &&& cloned(self@, copy@)
                    &&& copy.wf()
                    &&& copy.held_in(*final(heap))
                    &&& copy.spec_addr() != self.spec_addr()
                    &&& Self::boxed_in(copy.spec_addr(), *old(heap), *final(heap))
                },
                Err(_) => old(heap).same_blocks(*final(heap)),
            },
    {
        let val = self.value.clone();
        heap.allocate(val)
    }
}

impl<T: TryClone> Box<T> {
    /// A box of a clone of the value, in a block of its own.
    ///
    /// Fails with the value's own error where the value cannot be cloned,
    /// and with the default error where the heap refuses the block. Where
    /// the heap would grant the block as it stands, only the value's own
    /// refusal makes the clone fail.
    pub fn try_clone<F: RegionFinder>(&self, heap: &mut Allocator<F>) -> (r: Result<
        Self,
        T::Error,
    >) where T::Error: Default
        requires
            self.held_in(*old(heap)),
            old(heap).wf(),
        ensures
            final(heap).wf(),
            old(heap).same_regions(*final(heap)) || old(heap).extended(*final(heap)),
            self.held_in(*final(heap)),
            match r {
                Ok(copy) => {
                    &&& try_cloned(self@, copy@)
                    &&& copy.wf()
                    &&& copy.held_in(*final(heap))
                    &&& copy.spec_addr() != self.spec_addr()
                    &&& Self::boxed_in(copy.spec_addr(), *old(heap), *final(heap))
                },
                Err(error) => {
                    &&& old(heap).same_blocks(*final(heap))
                    &&& old(heap).choice(spec_layout_of::<T>()) is Some ==> try_clone_refused(
                        self@,
                        error,
                    )
                    &&& try_clone_refused(self@, error) || final(heap).choice(
                        spec_layout_of::<T>(),
                    ) is None
                },
            },
    {
        let val = match self.value.try_clone() {
            Ok(val) => val,
            Err(e) => {
                return Err(e);
            },
        };
        match heap.allocate(val) {
            Ok(copy) => Ok(copy),
            Err(_) => Err(T::Error::default()),
        }
    }
}

} // verus!
