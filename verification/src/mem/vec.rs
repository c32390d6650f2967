//! The array-list: an ordered, index-addressable, owned sequence.
//!
//! The list owns a growable buffer and keeps its elements in the buffer's
//! first cells. The length is the number of cells in use; it never exceeds
//! the capacity, and the capacity changes only through the buffer.

use crate::mem::dynamic_buffer::{slice_iter_mut, DynamicBuffer};
use crate::mem::growth::{lemma_new_capacity_covers, spec_cap_next, spec_new_capacity};
use crate::mem::heap::{Allocator, RegionFinder};
use crate::mem::Bound;
use crate::{try_clone_refused, try_cloned, TryClone};
use vstd::prelude::*;

verus! {

/// A contiguous growable array of `T`.
pub struct Vec<T> {
    data: DynamicBuffer<T>,
}

impl<T> View for Vec<T> {
    type V = Seq<T>;

    /// The elements, in order.
    closed spec fn view(&self) -> Seq<T> {
        self.data@
    }
}

/// The first index of the range from `start` to `end` in a sequence of
/// `len` items.
pub open spec fn spec_range_start(start: Bound) -> int {
    match start {
        Bound::Included(val) => val as int,
        Bound::Excluded(val) => val + 1,
        Bound::Unbounded => 0,
    }
}

/// The index behind the last one of the range from `start` to `end` in a
/// sequence of `len` items.
pub open spec fn spec_range_end(end: Bound, len: nat) -> int {
    match end {
        Bound::Included(val) => val + 1,
        Bound::Excluded(val) => val as int,
        Bound::Unbounded => len as int,
    }
}

/// Whether the range from `start` to `end` lies within a sequence of `len`
/// items.
pub open spec fn spec_range_within(start: Bound, end: Bound, len: nat) -> bool {
    spec_range_start(start) <= spec_range_end(end, len) <= len
}

/// Normalises a pair of bounds to the half-open range `[start, end)` over a
/// sequence of `len` items, or returns `None` where a bound is not an index.
pub fn normalize_bounds(start: Bound, end: Bound, len: usize) -> (r: Option<(usize, usize)>)
    ensures
        r == (if spec_range_start(start) <= usize::MAX && spec_range_end(end, len as nat)
            <= usize::MAX {
            Some((spec_range_start(start) as usize, spec_range_end(end, len as nat) as usize))
        } else {
            None
        }),
{
    let first: usize = match start {
        Bound::Included(val) => val,
        Bound::Excluded(val) => {
            if val == usize::MAX {
                return None;
            }
            val + 1
        },
        Bound::Unbounded => 0,
    };
    let behind: usize = match end {
        Bound::Included(val) => {
            if val == usize::MAX {
                return None;
            }
            val + 1
        },
        Bound::Excluded(val) => val,
        Bound::Unbounded => len,
    };
    Some((first, behind))
}

impl<T> Default for Vec<T> {
    /// The list with no element, no block and geometric growth.
    fn default() -> (r: Self)
        ensures
            r.wf(),
            r@.len() == 0,
            r.spec_capacity() == 0,
            r.spec_step() == 0,
    {
        Vec::new(0)
    }
}

impl<T> Vec<T> {
    /// The buffer that holds the elements.
    pub closed spec fn buffer(&self) -> DynamicBuffer<T> {
        self.data
    }

    /// The number of elements that the list has room for.
    pub open spec fn spec_capacity(&self) -> nat {
        self.buffer().spec_capacity()
    }

    /// The growth step: zero for geometric growth.
    pub open spec fn spec_step(&self) -> nat {
        self.buffer().spec_step()
    }

    /// The list's buffer is well formed.
    pub open spec fn wf(&self) -> bool {
        self.buffer().wf()
    }

    /// The list's block, if it has one, is live in `heap`.
    pub open spec fn held_in<F: RegionFinder>(&self, heap: Allocator<F>) -> bool {
        self.buffer().held_in(heap)
    }

    /// `after` has the block, the capacity and the step of this list.
    pub open spec fn same_block(&self, after: Self) -> bool {
        self.buffer().same_block(after.buffer())
    }

    /// In a well-formed list the length does not exceed the capacity.
    pub proof fn lemma_len_within_capacity(&self)
        requires
            self.wf(),
        ensures
            self@.len() <= self.spec_capacity(),
            self.spec_capacity() <= usize::MAX,
    {
        self.data.lemma_wf_bounds();
    }

    /// A list with no element and no block. It never fails.
    pub fn new(step: usize) -> (r: Self)
        ensures
            r.wf(),
            r@.len() == 0,
            r.spec_capacity() == 0,
            r.spec_step() == step,
    {
        Vec { data: DynamicBuffer::empty(step) }
    }

    /// A list with no element and room for at least `capacity` elements,
    /// rounded by the growth policy.
    ///
    /// Fails where the heap refuses the block, and where the rounded capacity
    /// has no valid layout. Where the rounded capacity is zero nothing is
    /// allocated.
    pub fn try_with_capacity<F: RegionFinder>(
        heap: &mut Allocator<F>,
        step: usize,
        capacity: usize,
    ) -> (r: Result<Self, ()>)
        requires
            old(heap).wf(),
        ensures
            final(heap).wf(),
            old(heap).same_regions(*final(heap)) || old(heap).extended(*final(heap)),
            match r {
                Ok(list) => {
                    &&& list.wf()
                    &&& list.held_in(*final(heap))
                    &&& list@.len() == 0
                    &&& list.spec_step() == step
                    &&& list.spec_capacity() == spec_new_capacity(step as nat, capacity as nat)
                    &&& list.spec_capacity() >= capacity
                    &&& list.buffer().created(*old(heap), *final(heap))
                },
                Err(_) => old(heap).same_blocks(*final(heap)),
            },
            spec_new_capacity(step as nat, capacity as nat) == 0 ==> r is Ok,
            !DynamicBuffer::<T>::fits(spec_new_capacity(step as nat, capacity as nat)) ==> r
                is Err,
            DynamicBuffer::<T>::granted_by(
                spec_new_capacity(step as nat, capacity as nat),
                *old(heap),
            ) ==> r is Ok,
            r is Err ==> DynamicBuffer::<T>::refused_by(
                spec_new_capacity(step as nat, capacity as nat),
                *final(heap),
            ),
    {
        match DynamicBuffer::try_with_capacity(heap, step, capacity) {
            Ok(data) => Ok(Vec { data }),
            Err(_) => Err(()),
        }
    }

    /// The number of elements.
    pub fn len(&self) -> (r: usize)
        ensures
            r == self@.len(),
    {
        self.data.size()
    }

    /// The number of elements that the list has room for.
    pub fn capacity(&self) -> (r: usize)
        ensures
            r == self.spec_capacity(),
    {
        self.data.capacity()
    }

    /// Whether the list has no element.
    pub fn is_empty(&self) -> (r: bool)
        ensures
            r == (self@.len() == 0),
    {
        self.data.size() == 0
    }

    /// Whether the list owns a block.
    pub fn has_data(&self) -> (r: bool)
        ensures
            r == (self.spec_capacity() > 0),
    {
        self.data.has_data()
    }

    /// The growth step of the list.
    pub fn step(&self) -> (r: usize)
        ensures
            r == self.spec_step(),
    {
        self.data.step()
    }

    /// Moves the list to the capacity that follows its own under the growth
    /// policy. The list always moves, and its elements stay as they are.
    ///
    /// Succeeds where the heap grants the block as it stands. Fails, with
    /// the list as it was, where the heap refuses the block even after its
    /// recovery, and where the next capacity has no valid layout.
    pub fn try_expand<F: RegionFinder>(&mut self, heap: &mut Allocator<F>) -> (r: Result<(), ()>)
        requires
            old(self).wf(),
            old(self).held_in(*old(heap)),
            old(heap).wf(),
        ensures
            final(heap).wf(),
            old(heap).same_regions(*final(heap)) || old(heap).extended(*final(heap)),
            match r {
                Ok(_) => {
                    &&& final(self).wf()
                    &&& final(self).held_in(*final(heap))
                    &&& final(self).spec_capacity() > old(self).spec_capacity()
                    &&& final(self)@ == old(self)@
                    &&& old(self).buffer().rehoused(
                        final(self).buffer(),
                        *old(heap),
                        *final(heap),
                        spec_cap_next(old(self).spec_step(), old(self).spec_capacity()),
                    )
                },
                Err(_) => {
                    &&& *final(self) == *old(self)
                    &&& old(heap).same_blocks(*final(heap))
                },
            },
            !DynamicBuffer::<T>::fits(
                spec_cap_next(old(self).spec_step(), old(self).spec_capacity()),
            ) ==> r is Err,
            DynamicBuffer::<T>::granted_by(
                spec_cap_next(old(self).spec_step(), old(self).spec_capacity()),
                *old(heap),
            ) ==> r is Ok,
            r is Err ==> DynamicBuffer::<T>::refused_by(
                spec_cap_next(old(self).spec_step(), old(self).spec_capacity()),
                *final(heap),
            ),
    {
        self.data.try_expand(heap)
    }

    /// Makes room for at least `additional` more elements, rounded by the
    /// growth policy. Nothing happens where the room is there already. The
    /// elements stay as they are.
    ///
    /// Fails, with the list as it was, where the heap refuses the block and
    /// where the capacity that is needed has no valid layout.
    pub fn try_reserve<F: RegionFinder>(
        &mut self,
        heap: &mut Allocator<F>,
        additional: usize,
    ) -> (r: Result<(), ()>)
        requires
            old(self).wf(),
            old(self).held_in(*old(heap)),
            old(heap).wf(),
        ensures
            final(heap).wf(),
            old(heap).same_regions(*final(heap)) || old(heap).extended(*final(heap)),
            match r {
                Ok(_) => {
                    &&& final(self).wf()
                    &&& final(self).held_in(*final(heap))
                    &&& final(self)@ == old(self)@
                    &&& final(self).spec_capacity() >= old(self)@.len() + additional
                    &&& if old(self)@.len() + additional <= old(self).spec_capacity() {
                        &&& *final(self) == *old(self)
                        &&& old(heap).same_blocks(*final(heap))
                        &&& old(heap).same_regions(*final(heap))
                    } else {
                        old(self).buffer().rehoused(
                            final(self).buffer(),
                            *old(heap),
                            *final(heap),
                            spec_new_capacity(
                                old(self).spec_step(),
                                (old(self)@.len() + additional) as nat,
                            ),
                        )
                    }
                },
                Err(_) => {
                    &&& *final(self) == *old(self)
                    &&& old(heap).same_blocks(*final(heap))
                },
            },
            old(self)@.len() + additional <= old(self).spec_capacity() ==> r is Ok,
            old(self)@.len() + additional > old(self).spec_capacity()
                && !DynamicBuffer::<T>::fits(
                spec_new_capacity(
                    old(self).spec_step(),
                    (old(self)@.len() + additional) as nat,
                ),
            ) ==> r is Err,
            old(self)@.len() + additional > old(self).spec_capacity()
                && DynamicBuffer::<T>::granted_by(
                spec_new_capacity(
                    old(self).spec_step(),
                    (old(self)@.len() + additional) as nat,
                ),
                *old(heap),
            ) ==> r is Ok,
            r is Err ==> old(self)@.len() + additional > old(self).spec_capacity()
                && DynamicBuffer::<T>::refused_by(
                spec_new_capacity(
                    old(self).spec_step(),
                    (old(self)@.len() + additional) as nat,
                ),
                *final(heap),
            ),
    {
        proof {
            self.data.lemma_wf_bounds();
            lemma_new_capacity_covers(self.spec_step(), (self@.len() + additional) as nat);
        }
        let needed = match self.data.size().checked_add(additional) {
            Some(needed) => needed,
            None => {
                return Err(());
            },
        };
        if needed > self.data.capacity() {
            let r = self.data.try_resize(heap, needed);
            proof {
                if r is Ok {
                    assert(final(self)@ =~= old(self)@);
                }
            }
            r
        } else {
            Ok(())
        }
    }

    /// Makes room for exactly `additional` more elements where the room is
    /// not there already. The elements stay as they are.
    ///
    /// Fails, with the list as it was, where the heap refuses the block and
    /// where the capacity that is needed has no valid layout.
    pub fn try_reserve_exact<F: RegionFinder>(
        &mut self,
        heap: &mut Allocator<F>,
        additional: usize,
    ) -> (r: Result<(), ()>)
        requires
            old(self).wf(),
            old(self).held_in(*old(heap)),
            old(heap).wf(),
        ensures
            final(heap).wf(),
            old(heap).same_regions(*final(heap)) || old(heap).extended(*final(heap)),
            match r {
                Ok(_) => {
                    &&& final(self).wf()
                    &&& final(self).held_in(*final(heap))
                    &&& final(self)@ == old(self)@
                    &&& if old(self)@.len() + additional <= old(self).spec_capacity() {
                        &&& *final(self) == *old(self)
                        &&& old(heap).same_blocks(*final(heap))
                        &&& old(heap).same_regions(*final(heap))
                    } else {
                        old(self).buffer().rehoused(
                            final(self).buffer(),
                            *old(heap),
                            *final(heap),
                            (old(self)@.len() + additional) as nat,
                        )
                    }
                },
                Err(_) => {
                    &&& *final(self) == *old(self)
                    &&& old(heap).same_blocks(*final(heap))
                },
            },
            old(self)@.len() + additional <= old(self).spec_capacity() ==> r is Ok,
            old(self)@.len() + additional > old(self).spec_capacity()
                && !DynamicBuffer::<T>::fits(
                (old(self)@.len() + additional) as nat,
            ) ==> r is Err,
            old(self)@.len() + additional > old(self).spec_capacity()
                && DynamicBuffer::<T>::granted_by(
                (old(self)@.len() + additional) as nat,
                *old(heap),
            ) ==> r is Ok,
            r is Err ==> old(self)@.len() + additional > old(self).spec_capacity()
                && DynamicBuffer::<T>::refused_by(
                (old(self)@.len() + additional) as nat,
                *final(heap),
            ),
    {
        proof {
            self.data.lemma_wf_bounds();
        }
        let needed = match self.data.size().checked_add(additional) {
            Some(needed) => needed,
            None => {
                return Err(());
            },
        };
        if needed > self.data.capacity() {
            let r = self.data.try_resize_exact(heap, needed);
            proof {
                if r is Ok {
                    assert(final(self)@ =~= old(self)@);
                }
            }
            r
        } else {
            Ok(())
        }
    }

    /// Appends `val`. A full list expands first, as `try_expand` does.
    ///
    /// Fails, with the list as it was, where the list is full and cannot
    /// expand; `val` comes back in the error.
    pub fn try_push<F: RegionFinder>(&mut self, heap: &mut Allocator<F>, val: T) -> (r: Result<
        (),
        T,
    >)
        requires
            old(self).wf(),
            old(self).held_in(*old(heap)),
            old(heap).wf(),
        ensures
            final(heap).wf(),
            old(heap).same_regions(*final(heap)) || old(heap).extended(*final(heap)),
            match r {
                Ok(_) => {
                    &&& final(self).wf()
                    &&& final(self).held_in(*final(heap))
                    &&& final(self)@ == old(self)@.push(val)
                    &&& if old(self)@.len() < old(self).spec_capacity() {
                        &&& old(self).same_block(*final(self))
                        &&& old(heap).same_blocks(*final(heap))
                        &&& old(heap).same_regions(*final(heap))
                    } else {
                        old(self).buffer().rehoused(
                            final(self).buffer(),
                            *old(heap),
                            *final(heap),
                            spec_cap_next(old(self).spec_step(), old(self).spec_capacity()),
                        )
                    }
                },
                Err(back) => {
                    &&& back == val
                    &&& old(self)@.len() == old(self).spec_capacity()
                    &&& *final(self) == *old(self)
                    &&& old(heap).same_blocks(*final(heap))
                },
            },
            old(self)@.len() < old(self).spec_capacity() ==> r is Ok,
            old(self)@.len() == old(self).spec_capacity()
                && !DynamicBuffer::<T>::fits(
                spec_cap_next(old(self).spec_step(), old(self).spec_capacity()),
            ) ==> r is Err,
            old(self)@.len() == old(self).spec_capacity()
                && DynamicBuffer::<T>::granted_by(
                spec_cap_next(old(self).spec_step(), old(self).spec_capacity()),
                *old(heap),
            ) ==> r is Ok,
            r is Err ==> old(self)@.len() == old(self).spec_capacity()
                && DynamicBuffer::<T>::refused_by(
                spec_cap_next(old(self).spec_step(), old(self).spec_capacity()),
                *final(heap),
            ),
    {
        proof {
            self.data.lemma_wf_bounds();
        }
        if self.data.size() == self.data.capacity() {
            if self.data.try_expand(heap).is_err() {
                return Err(val);
            }
        }
        self.data.push_cell(val);
        Ok(())
    }

    /// Appends `val` where the list has room for it, and hands it back
    /// where the list is full.
    pub fn push_within_capacity(&mut self, val: T) -> (r: Result<(), T>)
        requires
            old(self).wf(),
        ensures
            final(self).wf(),
            old(self).same_block(*final(self)),
            r is Ok <==> old(self)@.len() < old(self).spec_capacity(),
            match r {
                Ok(_) => final(self)@ == old(self)@.push(val),
                Err(back) => back == val && final(self)@ == old(self)@,
            },
    {
        proof {
            self.data.lemma_wf_bounds();
        }
        if self.data.size() == self.data.capacity() {
            Err(val)
        } else {
            self.data.push_cell(val);
            Ok(())
        }
    }

    /// Inserts `val` at `index`, shifting the elements behind it. A full
    /// list expands first, as `try_expand` does.
    ///
    /// Fails, with the list as it was, where `index` is behind the end, and
    /// where the list is full and cannot expand; `val` comes back in the
    /// error.
    pub fn try_insert<F: RegionFinder>(
        &mut self,
        heap: &mut Allocator<F>,
        index: usize,
        val: T,
    ) -> (r: Result<(), T>)
        requires
            old(self).wf(),
            old(self).held_in(*old(heap)),
            old(heap).wf(),
        ensures
            final(heap).wf(),
            old(heap).same_regions(*final(heap)) || old(heap).extended(*final(heap)),
            match r {
                Ok(_) => {
                    &&& index <= old(self)@.len()
                    &&& final(self).wf()
                    &&& final(self).held_in(*final(heap))
                    &&& final(self)@ == old(self)@.insert(index as int, val)
                    &&& if old(self)@.len() < old(self).spec_capacity() {
                        &&& old(self).same_block(*final(self))
                        &&& old(heap).same_blocks(*final(heap))
                        &&& old(heap).same_regions(*final(heap))
                    } else {
                        old(self).buffer().rehoused(
                            final(self).buffer(),
                            *old(heap),
                            *final(heap),
                            spec_cap_next(old(self).spec_step(), old(self).spec_capacity()),
                        )
                    }
                },
                Err(back) => {
                    &&& back == val
                    &&& index > old(self)@.len() || old(self)@.len() == old(self).spec_capacity()
                    &&& *final(self) == *old(self)
                    &&& old(heap).same_blocks(*final(heap))
                },
            },
            index > old(self)@.len() ==> r is Err && old(heap).same_regions(*final(heap)),
            index <= old(self)@.len() < old(self).spec_capacity() ==> r is Ok,
            old(self)@.len() == old(self).spec_capacity()
                && !DynamicBuffer::<T>::fits(
                spec_cap_next(old(self).spec_step(), old(self).spec_capacity()),
            ) ==> r is Err,
            index <= old(self)@.len() == old(self).spec_capacity()
                && DynamicBuffer::<T>::granted_by(
                spec_cap_next(old(self).spec_step(), old(self).spec_capacity()),
                *old(heap),
            ) ==> r is Ok,
            r is Err && index <= old(self)@.len() ==> DynamicBuffer::<T>::refused_by(
                spec_cap_next(old(self).spec_step(), old(self).spec_capacity()),
                *final(heap),
            ),
    {
        proof {
            self.data.lemma_wf_bounds();
        }
        let len = self.data.size();
        if index > len {
            return Err(val);
        } else if index == len {
            let r = self.try_push(heap, val);
            proof {
                if r is Ok {
                    assert(old(self)@.push(val) =~= old(self)@.insert(index as int, val));
                }
            }
            return r;
        }
        if len == self.data.capacity() {
            if self.data.try_expand(heap).is_err() {
                return Err(val);
            }
        }
        self.data.insert_cell(index, val);
        Ok(())
    }

    /// Gives up the room that no element uses: the list moves to a block of
    /// exactly its length, and a list without elements gives its block back.
    /// Nothing happens where the capacity is the length already.
    ///
    /// Fails, with the list as it was, where the heap refuses the block.
    pub fn try_shrink_to_fit<F: RegionFinder>(&mut self, heap: &mut Allocator<F>) -> (r: Result<
        (),
        (),
    >)
        requires
            old(self).wf(),
            old(self).held_in(*old(heap)),
            old(heap).wf(),
        ensures
            final(heap).wf(),
            old(heap).same_regions(*final(heap)) || old(heap).extended(*final(heap)),
            match r {
                Ok(_) => {
                    &&& final(self).wf()
                    &&& final(self).held_in(*final(heap))
                    &&& final(self)@ == old(self)@
                    &&& final(self).spec_capacity() == old(self)@.len()
                    &&& old(self).buffer().resized(
                        final(self).buffer(),
                        *old(heap),
                        *final(heap),
                        old(self)@.len(),
                    )
                },
                Err(_) => {
                    &&& *final(self) == *old(self)
                    &&& old(heap).same_blocks(*final(heap))
                },
            },
            old(self)@.len() == 0 ==> r is Ok,
            old(self)@.len() == old(self).spec_capacity() ==> r is Ok,
            DynamicBuffer::<T>::granted_by(
                old(self)@.len(),
                *old(heap),
            ) ==> r is Ok,
            r is Err ==> DynamicBuffer::<T>::refused_by(
                old(self)@.len(),
                *final(heap),
            ),
    {
        proof {
            self.data.lemma_wf_bounds();
        }
        let len = self.data.size();
        let r = self.data.try_resize_exact(heap, len);
        proof {
            if r is Ok {
                assert(final(self)@ =~= old(self)@);
            }
        }
        r
    }

    /// Shrinks the capacity to `size`. The elements from `size` on are
    /// dropped first, and then the list moves to a block of exactly `size`
    /// cells. Nothing happens where the capacity is `size` or less already.
    ///
    /// Fails where the heap refuses the block: the list then keeps its
    /// block, without the elements that were dropped.
    pub fn try_shrink_to<F: RegionFinder>(&mut self, heap: &mut Allocator<F>, size: usize) -> (r:
        Result<(), ()>)
        requires
            old(self).wf(),
            old(self).held_in(*old(heap)),
            old(heap).wf(),
        ensures
            final(heap).wf(),
            old(heap).same_regions(*final(heap)) || old(heap).extended(*final(heap)),
            final(self).wf(),
            final(self).held_in(*final(heap)),
            if old(self).spec_capacity() <= size {
                &&& r is Ok
                &&& *final(self) == *old(self)
                &&& old(heap).same_blocks(*final(heap))
                &&& old(heap).same_regions(*final(heap))
            } else {
                &&& final(self)@ == old(self)@.take(
                    if size <= old(self)@.len() {
                        size as int
                    } else {
                        old(self)@.len() as int
                    },
                )
                &&& match r {
                    Ok(_) => old(self).buffer().rehoused(
                        final(self).buffer(),
                        *old(heap),
                        *final(heap),
                        size as nat,
                    ),
                    Err(_) => {
                        &&& old(self).same_block(*final(self))
                        &&& old(heap).same_blocks(*final(heap))
                    },
                }
            },
            size == 0 ==> r is Ok,
            old(self).spec_capacity() > size && DynamicBuffer::<T>::granted_by(
                size as nat,
                *old(heap),
            ) ==> r is Ok,
            r is Err ==> old(self).spec_capacity() > size
                && DynamicBuffer::<T>::refused_by(
                size as nat,
                *final(heap),
            ),
    {
        proof {
            self.data.lemma_wf_bounds();
        }
        if self.data.capacity() > size {
            self.data.truncate_cells(size);
            let ghost cut = self.data;
            let r = self.data.try_resize_exact(heap, size);
            proof {
                if r is Ok {
                    assert(final(self)@ =~= cut@);
                }
            }
            r
        } else {
            Ok(())
        }
    }

    /// Removes and drops the element at `index`, shifting the elements
    /// behind it. A list without a block is left as it is.
    pub fn remove(&mut self, index: usize)
        requires
            old(self).wf(),
            old(self).spec_capacity() == 0 || index < old(self)@.len(),
        ensures
            final(self).wf(),
            old(self).same_block(*final(self)),
            final(self)@ == (if old(self).spec_capacity() == 0 {
                old(self)@
            } else {
                old(self)@.remove(index as int)
            }),
    {
        proof {
            self.data.lemma_wf_bounds();
        }
        if self.data.capacity() > 0 {
            let _ = self.data.remove_cell(index);
        }
    }

    /// Removes and returns the element at `index`, shifting the elements
    /// behind it.
    pub fn remove_ret(&mut self, index: usize) -> (r: T)
        requires
            old(self).wf(),
            index < old(self)@.len(),
        ensures
            final(self).wf(),
            old(self).same_block(*final(self)),
            r == old(self)@[index as int],
            final(self)@ == old(self)@.remove(index as int),
    {
        self.data.remove_cell(index)
    }

    /// Drops the last element. An empty list is left as it is.
    pub fn pop(&mut self)
        requires
            old(self).wf(),
        ensures
            final(self).wf(),
            old(self).same_block(*final(self)),
            final(self)@ == (if old(self)@.len() > 0 {
                old(self)@.drop_last()
            } else {
                old(self)@
            }),
    {
        let _ = self.data.pop_cell();
    }

    /// Removes and returns the last element, or `None` from an empty list.
    pub fn pop_ret(&mut self) -> (r: Option<T>)
        requires
            old(self).wf(),
        ensures
            final(self).wf(),
            old(self).same_block(*final(self)),
            match r {
                Some(val) => {
                    &&& old(self)@.len() > 0
                    &&& val == old(self)@.last()
                    &&& final(self)@ == old(self)@.drop_last()
                },
                None => {
                    &&& old(self)@.len() == 0
                    &&& final(self)@ == old(self)@
                },
            },
    {
        self.data.pop_cell()
    }

    /// Drops the last `n` elements, or all of them where there are fewer.
    pub fn pop_n(&mut self, n: usize)
        requires
            old(self).wf(),
        ensures
            final(self).wf(),
            old(self).same_block(*final(self)),
            final(self)@ == old(self)@.take(
                if n <= old(self)@.len() {
                    old(self)@.len() - n
                } else {
                    0
                },
            ),
    {
        let len = self.data.size();
        let keep: usize = if n <= len {
            len - n
        } else {
            0
        };
        self.data.truncate_cells(keep);
    }

    /// Drops the last element where `f` says so. An empty list is left as
    /// it is, and `f` is not asked.
    pub fn pop_if<P: Fn(&T) -> bool>(&mut self, f: P)
        requires
            old(self).wf(),
            forall|x: &T| #[trigger] f.requires((x,)),
        ensures
            final(self).wf(),
            old(self).same_block(*final(self)),
            old(self)@.len() == 0 ==> final(self)@ == old(self)@,
            old(self)@.len() > 0 ==> {
                ||| f.ensures((&old(self)@.last(),), true) && final(self)@ == old(self)@.drop_last()
                ||| f.ensures((&old(self)@.last(),), false) && final(self)@ == old(self)@
            },
    {
        let len = self.data.size();
        if len == 0 {
            return ;
        }
        let drop_it = f(&self.data.cells()[len - 1]);
        if drop_it {
            let _ = self.data.pop_cell();
        }
    }

    /// Moves all elements of `other` behind those of this list, in their
    /// order, and leaves `other` empty with its block. The room is reserved
    /// first, as `try_reserve` does, and nothing is copied.
    ///
    /// Fails, with both lists as they were, where the room cannot be
    /// reserved.
    pub fn try_append<F: RegionFinder>(
        &mut self,
        heap: &mut Allocator<F>,
        other: &mut Vec<T>,
    ) -> (r: Result<(), ()>)
        requires
            old(self).wf(),
            old(self).held_in(*old(heap)),
            old(heap).wf(),
            old(other).wf(),
        ensures
            final(heap).wf(),
            old(heap).same_regions(*final(heap)) || old(heap).extended(*final(heap)),
            final(other).wf(),
            old(other).same_block(*final(other)),
            match r {
                Ok(_) => {
                    &&& final(self).wf()
                    &&& final(self).held_in(*final(heap))
                    &&& final(self)@ == old(self)@ + old(other)@
                    &&& final(other)@.len() == 0
                    &&& if old(self)@.len() + old(other)@.len() <= old(self).spec_capacity() {
                        &&& old(self).same_block(*final(self))
                        &&& old(heap).same_blocks(*final(heap))
                        &&& old(heap).same_regions(*final(heap))
                    } else {
                        old(self).buffer().rehoused(
                            final(self).buffer(),
                            *old(heap),
                            *final(heap),
                            spec_new_capacity(
                                old(self).spec_step(),
                                (old(self)@.len() + old(other)@.len()) as nat,
                            ),
                        )
                    }
                },
                Err(_) => {
                    &&& *final(self) == *old(self)
                    &&& *final(other) == *old(other)
                    &&& old(heap).same_blocks(*final(heap))
                },
            },
            old(self)@.len() + old(other)@.len() <= old(self).spec_capacity() ==> r is Ok,
            old(self)@.len() + old(other)@.len() > old(self).spec_capacity()
                && !DynamicBuffer::<T>::fits(
                spec_new_capacity(
                    old(self).spec_step(),
                    (old(self)@.len() + old(other)@.len()) as nat,
                ),
            ) ==> r is Err,
            old(self)@.len() + old(other)@.len() > old(self).spec_capacity()
                && DynamicBuffer::<T>::granted_by(
                spec_new_capacity(
                    old(self).spec_step(),
                    (old(self)@.len() + old(other)@.len()) as nat,
                ),
                *old(heap),
            ) ==> r is Ok,
            r is Err ==> old(self)@.len() + old(other)@.len() > old(self).spec_capacity()
                && DynamicBuffer::<T>::refused_by(
                spec_new_capacity(
                    old(self).spec_step(),
                    (old(self)@.len() + old(other)@.len()) as nat,
                ),
                *final(heap),
            ),
    {
        if other.data.size() == 0 {
            proof {
                self.data.lemma_wf_bounds();
                assert(old(self)@ + old(other)@ =~= old(self)@);
            }
            return Ok(());
        }
        if self.try_reserve(heap, other.data.size()).is_err() {
            return Err(());
        }
        let mut moving = other.data.split_cells(0);
        assert(moving@ =~= old(other)@);
        self.data.append_cells(&mut moving);
        Ok(())
    }

    /// Drops all elements. The capacity stays.
    pub fn clear(&mut self)
        requires
            old(self).wf(),
        ensures
            final(self).wf(),
            old(self).same_block(*final(self)),
            final(self)@.len() == 0,
    {
        self.data.truncate_cells(0);
    }

    /// Drops the elements from `len` on. The capacity stays.
    pub fn truncate(&mut self, len: usize)
        requires
            old(self).wf(),
        ensures
            final(self).wf(),
            old(self).same_block(*final(self)),
            final(self)@ == old(self)@.take(
                if len <= old(self)@.len() {
                    len as int
                } else {
                    old(self)@.len() as int
                },
            ),
    {
        self.data.truncate_cells(len);
    }

    /// The elements as a slice, or `None` where the list owns no block.
    pub fn as_slice(&self) -> (r: Option<&[T]>)
        ensures
            r is Some <==> self.spec_capacity() > 0,
            r matches Some(slice) ==> slice@ == self@,
    {
        if self.data.capacity() > 0 {
            Some(self.data.cells())
        } else {
            None
        }
    }

    /// The elements as a slice, whether or not the list owns a block.
    pub fn as_slice_unchecked(&self) -> (r: &[T])
        ensures
            r@ == self@,
    {
        self.data.cells()
    }

    /// The last element, or `None` from an empty list.
    pub fn last(&self) -> (r: Option<&T>)
        ensures
            r is Some <==> self@.len() > 0,
            r matches Some(val) ==> *val == self@.last(),
    {
        let len = self.data.size();
        if len > 0 {
            Some(&self.data.cells()[len - 1])
        } else {
            None
        }
    }

    /// The element at `index`.
    pub fn index(&self, index: usize) -> (r: &T)
        requires
            index < self@.len(),
        ensures
            *r == self@[index as int],
    {
        &self.data.cells()[index]
    }

    /// The elements as a slice for writing, whether or not the list owns
    /// a block. The list keeps its length and its block.
    pub fn as_mut_slice_unchecked(&mut self) -> (r: &mut [T])
        requires
            old(self).wf(),
        ensures
            r@ == old(self)@,
            final(r)@.len() == r@.len(),
            final(self)@ == final(r)@,
            old(self).same_block(*final(self)),
            final(self).wf(),
    {
        let len = self.data.size();
        let r = self.data.cells_mut(0, len);
        proof {
            assert(old(self)@.subrange(0, len as int) =~= old(self)@);
            assert(old(self)@.take(0) + final(r)@ + old(self)@.skip(len as int) =~= final(r)@);
        }
        r
    }

    /// The elements as a slice for writing, or `None` where the list owns
    /// no block. The list keeps its length and its block.
    pub fn as_mut_slice(&mut self) -> (r: Option<&mut [T]>)
        requires
            old(self).wf(),
        ensures
            old(self).same_block(*final(self)),
            final(self).wf(),
            match r {
                Some(slice) => {
                    &&& old(self).spec_capacity() > 0
                    &&& slice@ == old(self)@
                    &&& final(slice)@.len() == slice@.len()
                    &&& final(self)@ == final(slice)@
                },
                None => {
                    &&& old(self).spec_capacity() == 0
                    &&& final(self)@ == old(self)@
                },
            },
    {
        if self.data.has_data() {
            Some(self.as_mut_slice_unchecked())
        } else {
            None
        }
    }

    /// The elements of the range from `start` to `end` for writing, or `None`
    /// where the range does not lie within the list. What lies outside
    /// the range stays as it is, and the list keeps its length and its
    /// block.
    pub fn get_mut(&mut self, start: Bound, end: Bound) -> (r: Option<&mut [T]>)
        requires
            old(self).wf(),
        ensures
            old(self).same_block(*final(self)),
            final(self).wf(),
            r is Some <==> spec_range_within(start, end, old(self)@.len()),
            match r {
                Some(slice) => {
                    &&& slice@ == old(self)@.subrange(
                        spec_range_start(start),
                        spec_range_end(end, old(self)@.len()),
                    )
                    &&& final(slice)@.len() == slice@.len()
                    &&& final(self)@ == old(self)@.take(spec_range_start(start)) + final(slice)@
                        + old(self)@.skip(spec_range_end(end, old(self)@.len()))
                },
                None => final(self)@ == old(self)@,
            },
    {
        let len = self.data.size();
        match normalize_bounds(start, end, len) {
            None => None,
            Some((first, behind)) => {
                if first > behind || behind > len {
                    None
                } else {
                    Some(self.data.cells_mut(first, behind))
                }
            },
        }
    }

    /// The elements of the range from `start` to `end`, which lies within
    /// the list, for writing.
    pub fn get_unchecked_mut(&mut self, start: Bound, end: Bound) -> (r: &mut [T])
        requires
            old(self).wf(),
            spec_range_within(start, end, old(self)@.len()),
        ensures
            r@ == old(self)@.subrange(
                spec_range_start(start),
                spec_range_end(end, old(self)@.len()),
            ),
            final(r)@.len() == r@.len(),
            final(self)@ == old(self)@.take(spec_range_start(start)) + final(r)@ + old(
                self,
            )@.skip(spec_range_end(end, old(self)@.len())),
            old(self).same_block(*final(self)),
            final(self).wf(),
    {
        let _ = self.data.size();
        let (first, behind) = self.handle_bounds(start, end);
        self.data.cells_mut(first, behind)
    }

    /// An iterator over the elements of a list that owns a block, for
    /// writing. The list keeps its length and its block.
    pub fn iter_mut(&mut self) -> (r: core::slice::IterMut<'_, T>)
        requires
            old(self).wf(),
            old(self).spec_capacity() > 0,
        ensures
            final(self)@.len() == old(self)@.len(),
            old(self).same_block(*final(self)),
            final(self).wf(),
    {
        slice_iter_mut(self.as_mut_slice_unchecked())
    }

    /// The last element, for writing, or `None` from an empty list.
    pub fn last_mut(&mut self) -> (r: Option<&mut T>)
        requires
            old(self).wf(),
        ensures
            old(self).same_block(*final(self)),
            final(self).wf(),
            match r {
                Some(val) => {
                    &&& old(self)@.len() > 0
                    &&& *val == old(self)@.last()
                    &&& final(self)@ == old(self)@.update(old(self)@.len() - 1, *final(val))
                },
                None => {
                    &&& old(self)@.len() == 0
                    &&& final(self)@ == old(self)@
                },
            },
    {
        let len = self.data.size();
        if len > 0 {
            Some(self.data.cell_mut(len - 1))
        } else {
            None
        }
    }

    /// The element at `index`, for writing.
    pub fn index_mut(&mut self, index: usize) -> (r: &mut T)
        requires
            old(self).wf(),
            index < old(self)@.len(),
        ensures
            *r == old(self)@[index as int],
            final(self)@ == old(self)@.update(index as int, *final(r)),
            old(self).same_block(*final(self)),
            final(self).wf(),
    {
        self.data.cell_mut(index)
    }

    /// Normalises a pair of bounds to the half-open range `[start, end)`
    /// over this list.
    pub fn handle_bounds(&self, start: Bound, end: Bound) -> (r: (usize, usize))
        requires
            spec_range_start(start) <= usize::MAX,
            spec_range_end(end, self@.len()) <= usize::MAX,
        ensures
            r.0 == spec_range_start(start),
            r.1 == spec_range_end(end, self@.len()),
    {
        match normalize_bounds(start, end, self.data.size()) {
            Some(range) => range,
            None => (0, 0),
        }
    }

    /// The elements of the range from `start` to `end`, or `None` where the
    /// range does not lie within the list. Nothing behind the length is ever
    /// read.
    pub fn get(&self, start: Bound, end: Bound) -> (r: Option<&[T]>)
        ensures
            r is Some <==> spec_range_within(start, end, self@.len()),
            r matches Some(slice) ==> slice@ == self@.subrange(
                spec_range_start(start),
                spec_range_end(end, self@.len()),
            ),
    {
        let len = self.data.size();
        match normalize_bounds(start, end, len) {
            None => None,
            Some((first, behind)) => {
                if first > behind || behind > len {
                    None
                } else {
                    Some(vstd::slice::slice_subrange(self.data.cells(), first, behind))
                }
            },
        }
    }

    /// The elements of the range from `start` to `end`, which lies within
    /// the list.
    pub fn get_unchecked(&self, start: Bound, end: Bound) -> (r: &[T])
        requires
            spec_range_within(start, end, self@.len()),
        ensures
            r@ == self@.subrange(spec_range_start(start), spec_range_end(end, self@.len())),
    {
        let _ = self.data.size();
        let (first, behind) = self.handle_bounds(start, end);
        vstd::slice::slice_subrange(self.data.cells(), first, behind)
    }

    /// An iterator over the elements of a list that owns a block.
    pub fn iter(&self) -> (r: core::slice::Iter<'_, T>)
        requires
            self.spec_capacity() > 0,
        ensures
            vstd::std_specs::slice::into_iter_elts(r) == self@,
    {
        broadcast use vstd::std_specs::slice::axiom_spec_slice_iter;

        let r = self.data.cells().iter();
        assert(vstd::std_specs::slice::into_iter_elts(r) =~= self@);
        r
    }

    /// Gives up the list without giving its block back: the block stays live
    /// in the heap for good, and the elements go to the caller.
    pub fn leak(self) -> (r: std::vec::Vec<T>)
        requires
            self.spec_capacity() > 0,
        ensures
            r@ == self@,
    {
        let (_, _, cells) = self.data.into_raw_parts();
        cells
    }

    /// Drops the elements, gives the block back to the heap and ends the
    /// list.
    pub fn release<F: RegionFinder>(self, heap: &mut Allocator<F>)
        requires
            self.wf(),
            self.held_in(*old(heap)),
            old(heap).wf(),
        ensures
            final(heap).wf(),
            old(heap).same_regions(*final(heap)),
            final(heap).blocks() == self.buffer().without_block(old(heap).blocks()),
            final(heap).spec_allocated() + self.buffer().block_bytes() == old(
                heap,
            ).spec_allocated(),
    {
        let mut data = self.data;
        data.truncate_cells(0);
        data.release(heap);
    }
}

impl<T: Default> Vec<T> {
    /// Drops the element at `index` and puts the default value in its
    /// place, so that no live index ever shows a cell without a value. The
    /// length and the other elements stay as they are.
    pub fn swap_remove(&mut self, index: usize)
        requires
            old(self).wf(),
            index < old(self)@.len(),
        ensures
            final(self).wf(),
            old(self).same_block(*final(self)),
            call_ensures(T::default, (), final(self)@[index as int]),
            final(self)@ == old(self)@.update(index as int, final(self)@[index as int]),
    {
        let _ = self.data.replace_cell(index, T::default());
    }

    /// Takes the element at `index` out and puts the default value in its
    /// place. The length and the other elements stay as they are.
    pub fn swap_remove_ret(&mut self, index: usize) -> (r: T)
        requires
            old(self).wf(),
            index < old(self)@.len(),
        ensures
            final(self).wf(),
            old(self).same_block(*final(self)),
            r == old(self)@[index as int],
            call_ensures(T::default, (), final(self)@[index as int]),
            final(self)@ == old(self)@.update(index as int, final(self)@[index as int]),
    {
        self.data.replace_cell(index, T::default())
    }
}

impl<T: Clone> Vec<T> {
    /// A deep clone: a list of the same capacity and step in a block of its
    /// own, whose elements are clones of the elements of this list.
    ///
    /// Fails where the heap refuses the block.
    pub fn clone<F: RegionFinder>(&self, heap: &mut Allocator<F>) -> (r: Result<Self, ()>)
        requires
            self.wf(),
            self.held_in(*old(heap)),
            old(heap).wf(),
        ensures
            final(heap).wf(),
            old(heap).same_regions(*final(heap)) || old(heap).extended(*final(heap)),
            self.held_in(*final(heap)),
            match r {
                Ok(copy) => {
                    &&& copy.wf()
                    &&& copy.held_in(*final(heap))
                    &&& copy.spec_step() == self.spec_step()
                    &&& copy.spec_capacity() == self.spec_capacity()
                    &&& copy.buffer().created(*old(heap), *final(heap))
                    &&& copy@.len() == self@.len()
                    &&& forall|i: int|
                        0 <= i < self@.len() ==> cloned(#[trigger] self@[i], copy@[i])
                },
                Err(_) => old(heap).same_blocks(*final(heap)),
            },
            self.spec_capacity() == 0 ==> r is Ok,
            DynamicBuffer::<T>::granted_by(
                self.spec_capacity(),
                *old(heap),
            ) ==> r is Ok,
            r is Err ==> DynamicBuffer::<T>::refused_by(
                self.spec_capacity(),
                *final(heap),
            ),
    {
        proof {
            self.data.lemma_wf_bounds();
        }
        let mut data = match self.data.try_clone(heap) {
            Ok(data) => data,
            Err(_) => {
                return Err(());
            },
        };
        let ghost fresh = data;
        let len = self.data.size();
        let mut i: usize = 0;
        while i < len
            invariant
                self.wf(),
                len == self@.len(),
                len <= self.spec_capacity(),
                i <= len,
                data.wf(),
                fresh.same_block(data),
                fresh.spec_capacity() == self.spec_capacity(),
                data@.len() == i,
                forall|j: int| 0 <= j < i ==> cloned(#[trigger] self@[j], data@[j]),
            decreases len - i,
        {
            let item = self.data.cells()[i].clone();
            data.push_cell(item);
            i = i + 1;
        }
        Ok(Vec { data })
    }
}

impl<T: TryClone> Vec<T> {
    /// A deep clone: a list of the same capacity and step in a block of its
    /// own, whose elements are clones of the elements of this list.
    ///
    /// Fails where the heap refuses the block and where an element cannot
    /// be cloned. The clones made so far are then dropped and the new block
    /// is given back, so that the heap holds the blocks it held before.
    pub fn try_clone<F: RegionFinder>(&self, heap: &mut Allocator<F>) -> (r: Result<Self, ()>)
        requires
            self.wf(),
            self.held_in(*old(heap)),
            old(heap).wf(),
        ensures
            final(heap).wf(),
            old(heap).same_regions(*final(heap)) || old(heap).extended(*final(heap)),
            self.held_in(*final(heap)),
            match r {
                Ok(copy) => {
                    &&& copy.wf()
                    &&& copy.held_in(*final(heap))
                    &&& copy.spec_step() == self.spec_step()
                    &&& copy.spec_capacity() == self.spec_capacity()
                    &&& copy.buffer().created(*old(heap), *final(heap))
                    &&& copy@.len() == self@.len()
                    &&& forall|i: int|
                        0 <= i < self@.len() ==> try_cloned(#[trigger] self@[i], copy@[i])
                },
                Err(_) => old(heap).same_blocks(*final(heap)),
            },
            self@.len() == 0 && self.spec_capacity() == 0 ==> r is Ok,
            r is Err ==> {
                ||| DynamicBuffer::<T>::refused_by(self.spec_capacity(), *final(heap))
                ||| exists|i: int, error: T::Error|
                    0 <= i < self@.len() && #[trigger] try_clone_refused(self@[i], error)
            },
            r is Err && DynamicBuffer::<T>::granted_by(self.spec_capacity(), *old(heap)) ==> exists|
                i: int,
                error: T::Error,
            | 0 <= i < self@.len() && #[trigger] try_clone_refused(self@[i], error),
    {
        proof {
            self.data.lemma_wf_bounds();
        }
        let ghost before = *heap;
        let mut data = match self.data.try_clone(heap) {
            Ok(data) => data,
            Err(_) => {
                return Err(());
            },
        };
        let ghost fresh = data;
        let ghost grown = *heap;
        let len = self.data.size();
        let mut i: usize = 0;
        while i < len
            invariant
                self.wf(),
                *heap == grown,
                *old(heap) == before,
                self.held_in(before),
                grown.wf(),
                before.same_regions(grown) || before.extended(grown),
                self.held_in(grown),
                len == self@.len(),
                len <= self.spec_capacity(),
                i <= len,
                data.wf(),
                fresh.same_block(data),
                fresh.spec_capacity() == self.spec_capacity(),
                fresh.created(before, grown),
                data.held_in(grown),
                data@.len() == i,
                forall|j: int| 0 <= j < i ==> try_cloned(#[trigger] self@[j], data@[j]),
            decreases len - i,
        {
            match self.data.cells()[i].try_clone() {
                Ok(item) => {
                    data.push_cell(item);
                },
                Err(error) => {
                    data.release(heap);
                    proof {
                        assert(heap.blocks() =~= before.blocks());
                        assert(grown.same_regions(*heap));
                        assert(try_clone_refused(self@[i as int], error));
                    }
                    return Err(());
                },
            }
            i = i + 1;
        }
        Ok(Vec { data })
    }
}

/// The elements of a list after one step of a history: `Some(val)` stands
/// for a push of `val`, and `None` for a pop, which leaves an empty list as
/// it is.
pub open spec fn after_step<T>(elements: Seq<T>, step: Option<T>) -> Seq<T> {
    match step {
        Some(val) => elements.push(val),
        None => if elements.len() > 0 {
            elements.drop_last()
        } else {
            elements
        },
    }
}

/// The elements of a list after a history of pushes and pops.
pub open spec fn after_steps<T>(elements: Seq<T>, steps: Seq<Option<T>>) -> Seq<T>
    decreases steps.len(),
{
    if steps.len() == 0 {
        elements
    } else {
        after_step(after_steps(elements, steps.drop_last()), steps.last())
    }
}

/// The number of pushes in a history.
pub open spec fn pushes<T>(steps: Seq<Option<T>>) -> nat
    decreases steps.len(),
{
    if steps.len() == 0 {
        0
    } else if steps.last() is Some {
        pushes(steps.drop_last()) + 1
    } else {
        pushes(steps.drop_last())
    }
}

/// The number of pops in a history.
pub open spec fn pops<T>(steps: Seq<Option<T>>) -> nat
    decreases steps.len(),
{
    if steps.len() == 0 {
        0
    } else if steps.last() is None {
        pops(steps.drop_last()) + 1
    } else {
        pops(steps.drop_last())
    }
}

/// Whether no pop of the history meets an empty list.
pub open spec fn pops_meet_elements<T>(elements: Seq<T>, steps: Seq<Option<T>>) -> bool {
    forall|k: int|
        0 <= k < steps.len() && steps[k] is None ==> after_steps(
            elements,
            #[trigger] steps.take(k),
        ).len() > 0
}

/// After any history of pushes and pops a list has at least as many
/// elements as it had, plus the pushes, minus the pops.
pub proof fn lemma_push_pop_length_at_least<T>(elements: Seq<T>, steps: Seq<Option<T>>)
    ensures
        after_steps(elements, steps).len() >= elements.len() + pushes(steps) - pops(steps),
    decreases steps.len(),
{
    if steps.len() > 0 {
        lemma_push_pop_length_at_least(elements, steps.drop_last());
    }
}

/// After a history of pushes and pops in which no pop met an empty list,
/// the list has as many elements as it had, plus the pushes, minus the pops.
/// For a list that started empty the length is the number of pushes minus the
/// number of pops.
pub proof fn lemma_push_pop_length<T>(elements: Seq<T>, steps: Seq<Option<T>>)
    requires
        pops_meet_elements(elements, steps),
    ensures
        after_steps(elements, steps).len() == elements.len() + pushes(steps) - pops(steps),
    decreases steps.len(),
{
    if steps.len() > 0 {
        let earlier = steps.drop_last();
        assert forall|k: int| 0 <= k < earlier.len() && earlier[k] is None implies after_steps(
            elements,
            #[trigger] earlier.take(k),
        ).len() > 0 by {
            assert(earlier.take(k) =~= steps.take(k));
        }
        lemma_push_pop_length(elements, earlier);
        if steps.last() is None {
            assert(steps.take(steps.len() - 1) =~= earlier);
        }
    }
}

impl<T> Vec<T> {
    /// A push that succeeds and a pop are steps of a history: the elements
    /// after them are those of `after_step`, and the length stays within the
    /// capacity.
    pub proof fn lemma_steps_keep_capacity(&self, before: Seq<T>, steps: Seq<Option<T>>)
        requires
            self.wf(),
            self@ == after_steps(before, steps),
        ensures
            self@.len() <= self.spec_capacity(),
            self@.len() >= before.len() + pushes(steps) - pops(steps),
            pops_meet_elements(before, steps) ==> self@.len() == before.len() + pushes(steps)
                - pops(steps),
    {
        self.lemma_len_within_capacity();
        lemma_push_pop_length_at_least(before, steps);
        if pops_meet_elements(before, steps) {
            lemma_push_pop_length(before, steps);
        }
    }
}

} // verus!
