//! The byte-string: a growable, contiguous text buffer of bytes.
//!
//! The string owns a growable buffer of bytes. Text that enters through
//! string slices is UTF-8 and keeps UTF-8 content UTF-8; single bytes are
//! taken as they come, so a caller who adds bytes outside ASCII answers for
//! the result. Conversions to a string slice check the content.

use crate::convert::strify;
use crate::mem::dynamic_buffer::{slice_iter_mut, DynamicBuffer};
use crate::mem::growth::{lemma_new_capacity_covers, spec_cap_next, spec_new_capacity};
use crate::mem::heap::{Allocator, RegionFinder};
use crate::mem::vec::{normalize_bounds, spec_range_end, spec_range_start, spec_range_within};
use crate::mem::Bound;
use vstd::prelude::*;
use vstd::string::StringSliceAdditionalSpecFns;
use vstd::utf8::{
    encode_scalar, encode_utf8, encode_utf8_valid_utf8, is_char_boundary, pop_first_scalar,
    valid_utf8, valid_utf8_concat, valid_utf8_split,
};

verus! {

/// The bytes that encode `c` in UTF-8: one to four of them.
pub fn encode_char(c: char) -> (r: std::vec::Vec<u8>)
    ensures
        r@ == encode_scalar(c as u32),
        1 <= r@.len() <= 4,
{
    let scalar: u32 = c as u32;
    let mut r: std::vec::Vec<u8> = std::vec::Vec::new();
    assert((scalar & 0x7F) <= 0x7F && ((scalar >> 6) & 0x1F) <= 0x1F && ((scalar >> 12) & 0x0F)
        <= 0x0F && ((scalar >> 18) & 0x7) <= 0x7 && (scalar & 0x3F) <= 0x3F && ((scalar >> 6)
        & 0x3F) <= 0x3F && ((scalar >> 12) & 0x3F) <= 0x3F) by (bit_vector);
    if scalar <= 0x7F {
        r.push((scalar & 0x7F) as u8);
        assert(r@ =~= encode_scalar(scalar));
    } else if scalar <= 0x7FF {
        r.push(0xC0 | ((scalar >> 6) & 0x1F) as u8);
        r.push(0x80 | (scalar & 0x3F) as u8);
        assert(r@ =~= encode_scalar(scalar));
    } else if scalar <= 0xFFFF && !(0xD800 <= scalar && scalar <= 0xDFFF) {
        r.push(0xE0 | ((scalar >> 12) & 0x0F) as u8);
        r.push(0x80 | ((scalar >> 6) & 0x3F) as u8);
        r.push(0x80 | (scalar & 0x3F) as u8);
        assert(r@ =~= encode_scalar(scalar));
    } else {
        r.push(0xF0 | ((scalar >> 18) & 0x7) as u8);
        r.push(0x80 | ((scalar >> 12) & 0x3F) as u8);
        r.push(0x80 | ((scalar >> 6) & 0x3F) as u8);
        r.push(0x80 | (scalar & 0x3F) as u8);
        assert(r@ =~= encode_scalar(scalar));
    }
    r
}

/// Whether two byte slices hold the same bytes.
pub fn bytes_eq(a: &[u8], b: &[u8]) -> (r: bool)
    ensures
        r == (a@ == b@),
{
    if a.len() != b.len() {
        return false;
    }
    let mut i: usize = 0;
    while i < a.len()
        invariant
            a@.len() == b@.len(),
            i <= a@.len(),
            forall|j: int| 0 <= j < i ==> a@[j] == b@[j],
        decreases a@.len() - i,
    {
        if a[i] != b[i] {
            return false;
        }
        i = i + 1;
    }
    assert(a@ =~= b@);
    true
}

/// Whether the first `k` bytes of `a` and `b` are the same.
pub open spec fn common_prefix(a: Seq<u8>, b: Seq<u8>, k: int) -> bool {
    &&& 0 <= k <= a.len()
    &&& k <= b.len()
    &&& forall|j: int| 0 <= j < k ==> a[j] == b[j]
}

/// Whether `a` comes before `b` in the order of the dictionary: behind
/// what the two have in common, `a` ends and `b` goes on, or `a` has the
/// smaller byte.
pub open spec fn bytes_before(a: Seq<u8>, b: Seq<u8>) -> bool {
    exists|k: int|
        #[trigger] common_prefix(a, b, k) && if k == a.len() {
            k < b.len()
        } else {
            k < b.len() && a[k] < b[k]
        }
}

/// Whether `a` comes before `b` in the order of the dictionary.
pub fn bytes_less(a: &[u8], b: &[u8]) -> (r: bool)
    ensures
        r == bytes_before(a@, b@),
{
    let mut i: usize = 0;
    while i < a.len() && i < b.len()
        invariant
            common_prefix(a@, b@, i as int),
        decreases a@.len() - i,
    {
        if a[i] != b[i] {
            let r = a[i] < b[i];
            proof {
                if !r {
                    assert forall|k: int| #[trigger]
                        common_prefix(a@, b@, k) implies !(if k == a@.len() {
                        k < b@.len()
                    } else {
                        k < b@.len() && a@[k] < b@[k]
                    }) by {
                        if k > i {
                            assert(a@[i as int] == b@[i as int]);
                        }
                    }
                }
            }
            return r;
        }
        i = i + 1;
    }
    proof {
        if a@.len() >= b@.len() {
            assert forall|k: int| #[trigger] common_prefix(a@, b@, k) implies !(if k == a@.len() {
                k < b@.len()
            } else {
                k < b@.len() && a@[k] < b@[k]
            }) by {
            }
        }
    }
    a.len() < b.len()
}

/// A byte of ASCII behind well-formed UTF-8 leaves well-formed UTF-8.
pub proof fn lemma_push_ascii(bytes: Seq<u8>, c: u8)
    requires
        valid_utf8(bytes),
        c < 128,
    ensures
        valid_utf8(bytes.push(c)),
{
    let one = seq![c];
    assert(valid_utf8(one)) by {
        reveal_with_fuel(valid_utf8, 2);
        assert(c & 0x80 == 0) by (bit_vector)
            requires
                c < 128,
        ;
        assert(pop_first_scalar(one) =~= Seq::<u8>::empty());
    }
    valid_utf8_concat(bytes, one);
    assert(bytes + one =~= bytes.push(c));
}

/// A growable string of bytes.
pub struct String {
    data: DynamicBuffer<u8>,
}

impl View for String {
    type V = Seq<u8>;

    /// The bytes, in order.
    closed spec fn view(&self) -> Seq<u8> {
        self.data@
    }
}

impl Default for String {
    /// The string with no byte, no block and geometric growth.
    fn default() -> (r: Self)
        ensures
            r.wf(),
            r@.len() == 0,
            r.spec_capacity() == 0,
            r.spec_step() == 0,
    {
        String::new(0)
    }
}

impl String {
    /// The buffer that holds the bytes.
    pub closed spec fn buffer(&self) -> DynamicBuffer<u8> {
        self.data
    }

    /// The number of bytes that the string has room for.
    pub open spec fn spec_capacity(&self) -> nat {
        self.buffer().spec_capacity()
    }

    /// The growth step: zero for geometric growth.
    pub open spec fn spec_step(&self) -> nat {
        self.buffer().spec_step()
    }

    /// The string's buffer is well formed.
    pub open spec fn wf(&self) -> bool {
        self.buffer().wf()
    }

    /// The string's block, if it has one, is live in `heap`.
    pub open spec fn held_in<F: RegionFinder>(&self, heap: Allocator<F>) -> bool {
        self.buffer().held_in(heap)
    }

    /// `after` has the block, the capacity and the step of this string.
    pub open spec fn same_block(&self, after: Self) -> bool {
        self.buffer().same_block(after.buffer())
    }

    /// The index at which an insertion at `index` takes place: an index
    /// behind the end stands for the end.
    pub open spec fn spec_insert_at(&self, index: usize) -> int {
        if index as int >= self@.len() {
            self@.len() as int
        } else {
            index as int
        }
    }

    /// In a well-formed string the length does not exceed the capacity.
    pub proof fn lemma_len_within_capacity(&self)
        requires
            self.wf(),
        ensures
            self@.len() <= self.spec_capacity(),
            self.spec_capacity() <= usize::MAX,
    {
        self.data.lemma_wf_bounds();
    }

    /// A string with no byte and no block. It never fails.
    pub fn new(step: usize) -> (r: Self)
        ensures
            r.wf(),
            r@.len() == 0,
            r.spec_capacity() == 0,
            r.spec_step() == step,
    {
        String { data: DynamicBuffer::empty(step) }
    }

    /// A string with no byte and room for at least `capacity` bytes,
    /// rounded by the growth policy.
    ///
    /// Fails where the heap refuses the block, and where the rounded capacity
    /// has no valid layout. Where the rounded capacity is zero nothing is
    /// allocated.
    pub fn try_with_capacity<F: RegionFinder>(
        heap: &mut Allocator<F>,
        step: usize,
        capacity: usize,
    ) -> (r: Result<Self, ()>)
        requires
            old(heap).wf(),
        ensures
            final(heap).wf(),
            old(heap).same_regions(*final(heap)) || old(heap).extended(*final(heap)),
            match r {
                Ok(text) => {
                    &&& text.wf()
                    &&& text.held_in(*final(heap))
                    &&& text@.len() == 0
                    &&& text.spec_step() == step
                    &&& text.spec_capacity() == spec_new_capacity(step as nat, capacity as nat)
                    &&& text.spec_capacity() >= capacity
                    &&& text.buffer().created(*old(heap), *final(heap))
                },
                Err(_) => old(heap).same_blocks(*final(heap)),
            },
            spec_new_capacity(step as nat, capacity as nat) == 0 ==> r is Ok,
            !DynamicBuffer::<u8>::fits(spec_new_capacity(step as nat, capacity as nat)) ==> r
                is Err,
            DynamicBuffer::<u8>::granted_by(
                spec_new_capacity(step as nat, capacity as nat),
                *old(heap),
            ) ==> r is Ok,
            r is Err ==> DynamicBuffer::<u8>::refused_by(
                spec_new_capacity(step as nat, capacity as nat),
                *final(heap),
            ),
    {
        match DynamicBuffer::try_with_capacity(heap, step, capacity) {
            Ok(data) => Ok(String { data }),
            Err(_) => Err(()),
        }
    }

    /// The number of bytes.
    pub fn len(&self) -> (r: usize)
        ensures
            r == self@.len(),
    {
        self.data.size()
    }

    /// The growth step of the string.
    pub fn step(&self) -> (r: usize)
        ensures
            r == self.spec_step(),
    {
        self.data.step()
    }

    /// The number of bytes that the string has room for.
    pub fn capacity(&self) -> (r: usize)
        ensures
            r == self.spec_capacity(),
    {
        self.data.capacity()
    }

    /// Whether the string has no byte.
    pub fn is_empty(&self) -> (r: bool)
        ensures
            r == (self@.len() == 0),
    {
        self.data.size() == 0
    }

    /// Whether the string owns a block.
    pub fn has_data(&self) -> (r: bool)
        ensures
            r == (self.spec_capacity() > 0),
    {
        self.data.has_data()
    }

    /// Moves the string to the capacity that follows its own under the
    /// growth policy. The string always moves, and its bytes stay as they
    /// are.
    ///
    /// Succeeds where the heap grants the block as it stands. Fails, with
    /// the string as it was, where the heap refuses the block even after
    /// its recovery, and where the next capacity has no valid layout.
    pub fn try_expand<F: RegionFinder>(&mut self, heap: &mut Allocator<F>) -> (r: Result<(), ()>)
        requires
            old(self).wf(),
            old(self).held_in(*old(heap)),
            old(heap).wf(),
        ensures
            final(heap).wf(),
            old(heap).same_regions(*final(heap)) || old(heap).extended(*final(heap)),
            match r {
                Ok(_) => {
                    &&& final(self).wf()
                    &&& final(self).held_in(*final(heap))
                    &&& final(self).spec_capacity() > old(self).spec_capacity()
                    &&& final(self)@ == old(self)@
                    &&& old(self).buffer().rehoused(
                        final(self).buffer(),
                        *old(heap),
                        *final(heap),
                        spec_cap_next(old(self).spec_step(), old(self).spec_capacity()),
                    )
                },
                Err(_) => {
                    &&& *final(self) == *old(self)
                    &&& old(heap).same_blocks(*final(heap))
                },
            },
            !DynamicBuffer::<u8>::fits(
                spec_cap_next(old(self).spec_step(), old(self).spec_capacity()),
            ) ==> r is Err,
            DynamicBuffer::<u8>::granted_by(
                spec_cap_next(old(self).spec_step(), old(self).spec_capacity()),
                *old(heap),
            ) ==> r is Ok,
            r is Err ==> DynamicBuffer::<u8>::refused_by(
                spec_cap_next(old(self).spec_step(), old(self).spec_capacity()),
                *final(heap),
            ),
    {
        self.data.try_expand(heap)
    }

    /// Makes room for at least `add` more bytes, rounded by the growth
    /// policy. Nothing happens where the room is there already. The bytes
    /// stay as they are.
    ///
    /// Fails, with the string as it was, where the heap refuses the block
    /// and where the capacity that is needed has no valid layout.
    pub fn try_reserve<F: RegionFinder>(&mut self, heap: &mut Allocator<F>, add: usize) -> (r:
        Result<(), ()>)
        requires
            old(self).wf(),
            old(self).held_in(*old(heap)),
            old(heap).wf(),
        ensures
            final(heap).wf(),
            old(heap).same_regions(*final(heap)) || old(heap).extended(*final(heap)),
            match r {
                Ok(_) => {
                    &&& final(self).wf()
                    &&& final(self).held_in(*final(heap))
                    &&& final(self)@ == old(self)@
                    &&& final(self).spec_capacity() >= old(self)@.len() + add
                    &&& if old(self)@.len() + add <= old(self).spec_capacity() {
                        &&& *final(self) == *old(self)
                        &&& old(heap).same_blocks(*final(heap))
                        &&& old(heap).same_regions(*final(heap))
                    } else {
                        old(self).buffer().rehoused(
                            final(self).buffer(),
                            *old(heap),
                            *final(heap),
                            spec_new_capacity(
                                old(self).spec_step(),
                                (old(self)@.len() + add) as nat,
                            ),
                        )
                    }
                },
                Err(_) => {
                    &&& *final(self) == *old(self)
                    &&& old(heap).same_blocks(*final(heap))
                },
            },
            old(self)@.len() + add <= old(self).spec_capacity() ==> r is Ok,
            old(self)@.len() + add > old(self).spec_capacity()
                && !DynamicBuffer::<u8>::fits(
                spec_new_capacity(
                    old(self).spec_step(),
                    (old(self)@.len() + add) as nat,
                ),
            ) ==> r is Err,
            old(self)@.len() + add > old(self).spec_capacity()
                && DynamicBuffer::<u8>::granted_by(
                spec_new_capacity(
                    old(self).spec_step(),
                    (old(self)@.len() + add) as nat,
                ),
                *old(heap),
            ) ==> r is Ok,
            r is Err ==> old(self)@.len() + add > old(self).spec_capacity()
                && DynamicBuffer::<u8>::refused_by(
                spec_new_capacity(
                    old(self).spec_step(),
                    (old(self)@.len() + add) as nat,
                ),
                *final(heap),
            ),
    {
        proof {
            self.data.lemma_wf_bounds();
            lemma_new_capacity_covers(self.spec_step(), (self@.len() + add) as nat);
        }
        let needed = match self.data.size().checked_add(add) {
            Some(needed) => needed,
            None => {
                return Err(());
            },
        };
        if needed > self.data.capacity() {
            let r = self.data.try_resize(heap, needed);
            proof {
                if r is Ok {
                    assert(final(self)@ =~= old(self)@);
                }
            }
            r
        } else {
            Ok(())
        }
    }

    /// Appends the byte `c`. A full string expands first, as `try_expand`
    /// does. A byte of ASCII keeps content that was UTF-8 UTF-8.
    ///
    /// Fails, with the string as it was, where the string is full and
    /// cannot expand.
    pub fn try_push<F: RegionFinder>(&mut self, heap: &mut Allocator<F>, c: u8) -> (r: Result<
        (),
        (),
    >)
        requires
            old(self).wf(),
            old(self).held_in(*old(heap)),
            old(heap).wf(),
        ensures
            final(heap).wf(),
            old(heap).same_regions(*final(heap)) || old(heap).extended(*final(heap)),
            match r {
                Ok(_) => {
                    &&& final(self).wf()
                    &&& final(self).held_in(*final(heap))
                    &&& final(self)@ == old(self)@.push(c)
                    &&& valid_utf8(old(self)@) && c < 128 ==> valid_utf8(final(self)@)
                    &&& if old(self)@.len() < old(self).spec_capacity() {
                        &&& old(self).same_block(*final(self))
                        &&& old(heap).same_blocks(*final(heap))
                        &&& old(heap).same_regions(*final(heap))
                    } else {
                        old(self).buffer().rehoused(
                            final(self).buffer(),
                            *old(heap),
                            *final(heap),
                            spec_cap_next(old(self).spec_step(), old(self).spec_capacity()),
                        )
                    }
                },
                Err(_) => {
                    &&& old(self)@.len() == old(self).spec_capacity()
                    &&& *final(self) == *old(self)
                    &&& old(heap).same_blocks(*final(heap))
                },
            },
            old(self)@.len() < old(self).spec_capacity() ==> r is Ok,
            old(self)@.len() == old(self).spec_capacity()
                && !DynamicBuffer::<u8>::fits(
                spec_cap_next(old(self).spec_step(), old(self).spec_capacity()),
            ) ==> r is Err,
            old(self)@.len() == old(self).spec_capacity()
                && DynamicBuffer::<u8>::granted_by(
                spec_cap_next(old(self).spec_step(), old(self).spec_capacity()),
                *old(heap),
            ) ==> r is Ok,
            r is Err ==> old(self)@.len() == old(self).spec_capacity()
                && DynamicBuffer::<u8>::refused_by(
                spec_cap_next(old(self).spec_step(), old(self).spec_capacity()),
                *final(heap),
            ),
    {
        proof {
            self.data.lemma_wf_bounds();
        }
        if self.data.size() == self.data.capacity() {
            if self.data.try_expand(heap).is_err() {
                return Err(());
            }
        }
        self.data.push_cell(c);
        proof {
            if valid_utf8(old(self)@) && c < 128 {
                lemma_push_ascii(old(self)@, c);
            }
        }
        Ok(())
    }

    /// Appends the byte `c` to a string that has room for it.
    pub fn push_unchecked(&mut self, c: u8)
        requires
            old(self).wf(),
            old(self)@.len() < old(self).spec_capacity(),
        ensures
            final(self).wf(),
            old(self).same_block(*final(self)),
            final(self)@ == old(self)@.push(c),
            valid_utf8(old(self)@) && c < 128 ==> valid_utf8(final(self)@),
    {
        self.data.push_cell(c);
        proof {
            if valid_utf8(old(self)@) && c < 128 {
                lemma_push_ascii(old(self)@, c);
            }
        }
    }

    /// Appends the bytes of `string`. The room is reserved first, as
    /// `try_reserve` does. Content that was UTF-8 stays UTF-8.
    ///
    /// Fails, with the string as it was, where the room cannot be reserved.
    pub fn try_push_str<F: RegionFinder>(&mut self, heap: &mut Allocator<F>, string: &str) -> (r:
        Result<(), ()>)
        requires
            old(self).wf(),
            old(self).held_in(*old(heap)),
            old(heap).wf(),
        ensures
            final(heap).wf(),
            old(heap).same_regions(*final(heap)) || old(heap).extended(*final(heap)),
            match r {
                Ok(_) => {
                    &&& final(self).wf()
                    &&& final(self).held_in(*final(heap))
                    &&& final(self)@ == old(self)@ + string.spec_bytes()
                    &&& valid_utf8(old(self)@) ==> valid_utf8(final(self)@)
                    &&& if old(self)@.len() + string.spec_bytes().len() <= old(
                        self,
                    ).spec_capacity() {
                        &&& old(self).same_block(*final(self))
                        &&& old(heap).same_blocks(*final(heap))
                        &&& old(heap).same_regions(*final(heap))
                    } else {
                        old(self).buffer().rehoused(
                            final(self).buffer(),
                            *old(heap),
                            *final(heap),
                            spec_new_capacity(
                                old(self).spec_step(),
                                (old(self)@.len() + string.spec_bytes().len()) as nat,
                            ),
                        )
                    }
                },
                Err(_) => {
                    &&& *final(self) == *old(self)
                    &&& old(heap).same_blocks(*final(heap))
                },
            },
            old(self)@.len() + string.spec_bytes().len() <= old(self).spec_capacity() ==> r
                is Ok,
            old(self)@.len() + string.spec_bytes().len() > old(self).spec_capacity()
                && !DynamicBuffer::<u8>::fits(
                spec_new_capacity(
                    old(self).spec_step(),
                    (old(self)@.len() + string.spec_bytes().len()) as nat,
                ),
            ) ==> r is Err,
            old(self)@.len() + string.spec_bytes().len() > old(self).spec_capacity()
                && DynamicBuffer::<u8>::granted_by(
                spec_new_capacity(
                    old(self).spec_step(),
                    (old(self)@.len() + string.spec_bytes().len()) as nat,
                ),
                *old(heap),
            ) ==> r is Ok,
            r is Err ==> old(self)@.len() + string.spec_bytes().len() > old(self).spec_capacity()
                && DynamicBuffer::<u8>::refused_by(
                spec_new_capacity(
                    old(self).spec_step(),
                    (old(self)@.len() + string.spec_bytes().len()) as nat,
                ),
                *final(heap),
            ),
    {
        let bytes = string.as_bytes();
        if self.try_reserve(heap, bytes.len()).is_err() {
            return Err(());
        }
        self.data.extend_cells(bytes);
        proof {
            encode_utf8_valid_utf8(string@);
            if valid_utf8(old(self)@) {
                valid_utf8_concat(old(self)@, string.spec_bytes());
            }
        }
        Ok(())
    }

    /// Appends the bytes of `string` to a string that has room for them.
    /// Content that was UTF-8 stays UTF-8.
    pub fn push_str_unchecked(&mut self, string: &str)
        requires
            old(self).wf(),
            old(self)@.len() + string.spec_bytes().len() <= old(self).spec_capacity(),
        ensures
            final(self).wf(),
            old(self).same_block(*final(self)),
            final(self)@ == old(self)@ + string.spec_bytes(),
            valid_utf8(old(self)@) ==> valid_utf8(final(self)@),
    {
        self.data.extend_cells(string.as_bytes());
        proof {
            encode_utf8_valid_utf8(string@);
            if valid_utf8(old(self)@) {
                valid_utf8_concat(old(self)@, string.spec_bytes());
            }
        }
    }

    /// Appends the bytes of `s`, as `try_push_str` does.
    pub fn write_str<F: RegionFinder>(&mut self, heap: &mut Allocator<F>, s: &str) -> (r: Result<
        (),
        (),
    >)
        requires
            old(self).wf(),
            old(self).held_in(*old(heap)),
            old(heap).wf(),
        ensures
            final(heap).wf(),
            old(heap).same_regions(*final(heap)) || old(heap).extended(*final(heap)),
            match r {
                Ok(_) => {
                    &&& final(self).wf()
                    &&& final(self).held_in(*final(heap))
                    &&& final(self)@ == old(self)@ + s.spec_bytes()
                    &&& valid_utf8(old(self)@) ==> valid_utf8(final(self)@)
                },
                Err(_) => {
                    &&& *final(self) == *old(self)
                    &&& old(heap).same_blocks(*final(heap))
                },
            },
            old(self)@.len() + s.spec_bytes().len() <= old(self).spec_capacity() ==> r is Ok,
            old(self)@.len() + s.spec_bytes().len() > old(self).spec_capacity()
                && DynamicBuffer::<u8>::granted_by(
                spec_new_capacity(
                    old(self).spec_step(),
                    (old(self)@.len() + s.spec_bytes().len()) as nat,
                ),
                *old(heap),
            ) ==> r is Ok,
            r is Err ==> old(self)@.len() + s.spec_bytes().len() > old(self).spec_capacity()
                && DynamicBuffer::<u8>::refused_by(
                spec_new_capacity(
                    old(self).spec_step(),
                    (old(self)@.len() + s.spec_bytes().len()) as nat,
                ),
                *final(heap),
            ),
    {
        self.try_push_str(heap, s)
    }

    /// Appends the bytes that encode `c` in UTF-8. The room is reserved
    /// first, as `try_reserve` does. Content that was UTF-8 stays UTF-8.
    ///
    /// Fails, with the string as it was, where the room cannot be reserved.
    pub fn write_char<F: RegionFinder>(&mut self, heap: &mut Allocator<F>, c: char) -> (r: Result<
        (),
        (),
    >)
        requires
            old(self).wf(),
            old(self).held_in(*old(heap)),
            old(heap).wf(),
        ensures
            final(heap).wf(),
            old(heap).same_regions(*final(heap)) || old(heap).extended(*final(heap)),
            match r {
                Ok(_) => {
                    &&& final(self).wf()
                    &&& final(self).held_in(*final(heap))
                    &&& final(self)@ == old(self)@ + encode_scalar(c as u32)
                    &&& valid_utf8(old(self)@) ==> valid_utf8(final(self)@)
                },
                Err(_) => {
                    &&& *final(self) == *old(self)
                    &&& old(heap).same_blocks(*final(heap))
                },
            },
            old(self)@.len() + encode_scalar(c as u32).len() <= old(self).spec_capacity() ==> r
                is Ok,
            old(self)@.len() + encode_scalar(c as u32).len() > old(self).spec_capacity()
                && DynamicBuffer::<u8>::granted_by(
                spec_new_capacity(
                    old(self).spec_step(),
                    (old(self)@.len() + encode_scalar(c as u32).len()) as nat,
                ),
                *old(heap),
            ) ==> r is Ok,
            r is Err ==> old(self)@.len() + encode_scalar(c as u32).len() > old(
                self,
            ).spec_capacity() && DynamicBuffer::<u8>::refused_by(
                spec_new_capacity(
                    old(self).spec_step(),
                    (old(self)@.len() + encode_scalar(c as u32).len()) as nat,
                ),
                *final(heap),
            ),
    {
        let bytes = encode_char(c);
        if self.try_reserve(heap, bytes.len()).is_err() {
            return Err(());
        }
        self.data.extend_cells(bytes.as_slice());
        proof {
            let one = seq![c];
            assert(one.drop_first() =~= Seq::<char>::empty());
            assert(encode_utf8(one) =~= encode_scalar(c as u32)) by {
                reveal_with_fuel(encode_utf8, 2);
            }
            encode_utf8_valid_utf8(one);
            if valid_utf8(old(self)@) {
                valid_utf8_concat(old(self)@, encode_scalar(c as u32));
            }
        }
        Ok(())
    }

    /// Removes the last byte. An empty string is left as it is.
    pub fn pop(&mut self)
        requires
            old(self).wf(),
        ensures
            final(self).wf(),
            old(self).same_block(*final(self)),
            final(self)@ == (if old(self)@.len() > 0 {
                old(self)@.drop_last()
            } else {
                old(self)@
            }),
    {
        let _ = self.data.pop_cell();
    }

    /// Removes and returns the last byte, or `None` from an empty string.
    pub fn pop_ret(&mut self) -> (r: Option<u8>)
        requires
            old(self).wf(),
        ensures
            final(self).wf(),
            old(self).same_block(*final(self)),
            match r {
                Some(c) => {
                    &&& old(self)@.len() > 0
                    &&& c == old(self)@.last()
                    &&& final(self)@ == old(self)@.drop_last()
                },
                None => {
                    &&& old(self)@.len() == 0
                    &&& final(self)@ == old(self)@
                },
            },
    {
        self.data.pop_cell()
    }

    /// Removes the last `n` bytes, or all of them where there are fewer.
    pub fn pop_n(&mut self, n: usize)
        requires
            old(self).wf(),
        ensures
            final(self).wf(),
            old(self).same_block(*final(self)),
            final(self)@ == old(self)@.take(
                if n <= old(self)@.len() {
                    old(self)@.len() - n
                } else {
                    0
                },
            ),
    {
        let len = self.data.size();
        self.data.truncate_cells(len.saturating_sub(n));
    }

    /// Removes all bytes. The capacity stays.
    pub fn clear(&mut self)
        requires
            old(self).wf(),
        ensures
            final(self).wf(),
            old(self).same_block(*final(self)),
            final(self)@.len() == 0,
    {
        self.data.truncate_cells(0);
    }

    /// Removes the bytes from `len` on. The capacity stays.
    pub fn truncate(&mut self, len: usize)
        requires
            old(self).wf(),
        ensures
            final(self).wf(),
            old(self).same_block(*final(self)),
            final(self)@ == old(self)@.take(
                if len <= old(self)@.len() {
                    len as int
                } else {
                    old(self)@.len() as int
                },
            ),
    {
        self.data.truncate_cells(len);
    }

    /// Removes the byte at `index`, shifting the bytes behind it. An empty
    /// string is left as it is.
    pub fn remove(&mut self, index: usize)
        requires
            old(self).wf(),
            old(self)@.len() == 0 || index < old(self)@.len(),
        ensures
            final(self).wf(),
            old(self).same_block(*final(self)),
            final(self)@ == (if old(self)@.len() == 0 {
                old(self)@
            } else {
                old(self)@.remove(index as int)
            }),
    {
        if self.data.size() > 0 {
            let _ = self.data.remove_cell(index);
        }
    }

    /// Removes the bytes of the range from `start` to `end`, which lies
    /// within the string, shifting the bytes behind them.
    pub fn remove_str(&mut self, start: Bound, end: Bound)
        requires
            old(self).wf(),
            spec_range_within(start, end, old(self)@.len()),
        ensures
            final(self).wf(),
            old(self).same_block(*final(self)),
            final(self)@ == old(self)@.take(spec_range_start(start)) + old(self)@.skip(
                spec_range_end(end, old(self)@.len()),
            ),
    {
        let len = self.data.size();
        let (first, behind) = self.handle_bounds(start, end);
        self.data.remove_cells(first, behind);
    }

    /// Normalises a pair of bounds to the half-open range `[start, end)`
    /// over this string.
    pub fn handle_bounds(&self, start: Bound, end: Bound) -> (r: (usize, usize))
        requires
            spec_range_start(start) <= usize::MAX,
            spec_range_end(end, self@.len()) <= usize::MAX,
        ensures
            r.0 == spec_range_start(start),
            r.1 == spec_range_end(end, self@.len()),
    {
        match normalize_bounds(start, end, self.data.size()) {
            Some(range) => range,
            None => (0, 0),
        }
    }

    /// Inserts the byte `c` at `index`, shifting the bytes behind it; an
    /// index behind the end appends. A full string expands first, as
    /// `try_expand` does.
    ///
    /// Fails, with the string as it was, where the string is full and
    /// cannot expand.
    pub fn try_insert<F: RegionFinder>(
        &mut self,
        heap: &mut Allocator<F>,
        index: usize,
        c: u8,
    ) -> (r: Result<(), ()>)
        requires
            old(self).wf(),
            old(self).held_in(*old(heap)),
            old(heap).wf(),
        ensures
            final(heap).wf(),
            old(heap).same_regions(*final(heap)) || old(heap).extended(*final(heap)),
            match r {
                Ok(_) => {
                    &&& final(self).wf()
                    &&& final(self).held_in(*final(heap))
                    &&& final(self)@ == old(self)@.insert(old(self).spec_insert_at(index), c)
                    &&& if old(self)@.len() < old(self).spec_capacity() {
                        &&& old(self).same_block(*final(self))
                        &&& old(heap).same_blocks(*final(heap))
                        &&& old(heap).same_regions(*final(heap))
                    } else {
                        old(self).buffer().rehoused(
                            final(self).buffer(),
                            *old(heap),
                            *final(heap),
                            spec_cap_next(old(self).spec_step(), old(self).spec_capacity()),
                        )
                    }
                },
                Err(_) => {
                    &&& old(self)@.len() == old(self).spec_capacity()
                    &&& *final(self) == *old(self)
                    &&& old(heap).same_blocks(*final(heap))
                },
            },
            old(self)@.len() < old(self).spec_capacity() ==> r is Ok,
            old(self)@.len() == old(self).spec_capacity()
                && !DynamicBuffer::<u8>::fits(
                spec_cap_next(old(self).spec_step(), old(self).spec_capacity()),
            ) ==> r is Err,
            old(self)@.len() == old(self).spec_capacity()
                && DynamicBuffer::<u8>::granted_by(
                spec_cap_next(old(self).spec_step(), old(self).spec_capacity()),
                *old(heap),
            ) ==> r is Ok,
            r is Err ==> old(self)@.len() == old(self).spec_capacity()
                && DynamicBuffer::<u8>::refused_by(
                spec_cap_next(old(self).spec_step(), old(self).spec_capacity()),
                *final(heap),
            ),
    {
        proof {
            self.data.lemma_wf_bounds();
        }
        let len = self.data.size();
        if index >= len {
            let r = self.try_push(heap, c);
            proof {
                if r is Ok {
                    assert(old(self)@.push(c) =~= old(self)@.insert(len as int, c));
                }
            }
            return r;
        }
        if len == self.data.capacity() {
            if self.data.try_expand(heap).is_err() {
                return Err(());
            }
        }
        self.data.insert_cell(index, c);
        Ok(())
    }

    /// Inserts the bytes of `string` at `index`, shifting the bytes behind
    /// them; an index behind the end appends. The room is reserved first, as
    /// `try_reserve` does. Content that was UTF-8 stays UTF-8 where the
    /// insertion does not split a character.
    ///
    /// Fails, with the string as it was, where the room cannot be reserved.
    pub fn try_insert_str<F: RegionFinder>(
        &mut self,
        heap: &mut Allocator<F>,
        index: usize,
        string: &str,
    ) -> (r: Result<(), ()>)
        requires
            old(self).wf(),
            old(self).held_in(*old(heap)),
            old(heap).wf(),
        ensures
            final(heap).wf(),
            old(heap).same_regions(*final(heap)) || old(heap).extended(*final(heap)),
            match r {
                Ok(_) => {
                    &&& final(self).wf()
                    &&& final(self).held_in(*final(heap))
                    &&& final(self)@ == old(self)@.take(old(self).spec_insert_at(index))
                        + string.spec_bytes() + old(self)@.skip(old(self).spec_insert_at(index))
                    &&& valid_utf8(old(self)@) && is_char_boundary(
                        old(self)@,
                        old(self).spec_insert_at(index),
                    ) ==> valid_utf8(final(self)@)
                    &&& if old(self)@.len() + string.spec_bytes().len() <= old(
                        self,
                    ).spec_capacity() {
                        &&& old(self).same_block(*final(self))
                        &&& old(heap).same_blocks(*final(heap))
                        &&& old(heap).same_regions(*final(heap))
                    } else {
                        old(self).buffer().rehoused(
                            final(self).buffer(),
                            *old(heap),
                            *final(heap),
                            spec_new_capacity(
                                old(self).spec_step(),
                                (old(self)@.len() + string.spec_bytes().len()) as nat,
                            ),
                        )
                    }
                },
                Err(_) => {
                    &&& *final(self) == *old(self)
                    &&& old(heap).same_blocks(*final(heap))
                },
            },
            old(self)@.len() + string.spec_bytes().len() <= old(self).spec_capacity() ==> r
                is Ok,
            old(self)@.len() + string.spec_bytes().len() > old(self).spec_capacity()
                && !DynamicBuffer::<u8>::fits(
                spec_new_capacity(
                    old(self).spec_step(),
                    (old(self)@.len() + string.spec_bytes().len()) as nat,
                ),
            ) ==> r is Err,
            old(self)@.len() + string.spec_bytes().len() > old(self).spec_capacity()
                && DynamicBuffer::<u8>::granted_by(
                spec_new_capacity(
                    old(self).spec_step(),
                    (old(self)@.len() + string.spec_bytes().len()) as nat,
                ),
                *old(heap),
            ) ==> r is Ok,
            r is Err ==> old(self)@.len() + string.spec_bytes().len() > old(self).spec_capacity()
                && DynamicBuffer::<u8>::refused_by(
                spec_new_capacity(
                    old(self).spec_step(),
                    (old(self)@.len() + string.spec_bytes().len()) as nat,
                ),
                *final(heap),
            ),
    {
        let len = self.data.size();
        let at: usize = if index >= len {
            len
        } else {
            index
        };
        let bytes = string.as_bytes();
        if self.try_reserve(heap, bytes.len()).is_err() {
            return Err(());
        }
        self.data.insert_cells(at, bytes);
        proof {
            let text = old(self)@;
            if valid_utf8(text) && is_char_boundary(text, at as int) {
                valid_utf8_split(text, at as int);
                encode_utf8_valid_utf8(string@);
                valid_utf8_concat(text.take(at as int), string.spec_bytes());
                valid_utf8_concat(text.take(at as int) + string.spec_bytes(), text.skip(at as int));
            }
        }
        Ok(())
    }

    /// Gives up the room that no byte uses: the string moves to a block of
    /// exactly its length, and a string without bytes gives its block back.
    /// Nothing happens where the capacity is the length already.
    ///
    /// Fails, with the string as it was, where the heap refuses the block.
    pub fn try_shrink_to_fit<F: RegionFinder>(&mut self, heap: &mut Allocator<F>) -> (r: Result<
        (),
        (),
    >)
        requires
            old(self).wf(),
            old(self).held_in(*old(heap)),
            old(heap).wf(),
        ensures
            final(heap).wf(),
            old(heap).same_regions(*final(heap)) || old(heap).extended(*final(heap)),
            match r {
                Ok(_) => {
                    &&& final(self).wf()
                    &&& final(self).held_in(*final(heap))
                    &&& final(self)@ == old(self)@
                    &&& final(self).spec_capacity() == old(self)@.len()
                    &&& old(self).buffer().resized(
                        final(self).buffer(),
                        *old(heap),
                        *final(heap),
                        old(self)@.len(),
                    )
                },
                Err(_) => {
                    &&& *final(self) == *old(self)
                    &&& old(heap).same_blocks(*final(heap))
                },
            },
            old(self)@.len() == 0 ==> r is Ok,
            old(self)@.len() == old(self).spec_capacity() ==> r is Ok,
            DynamicBuffer::<u8>::granted_by(
                old(self)@.len(),
                *old(heap),
            ) ==> r is Ok,
            r is Err ==> DynamicBuffer::<u8>::refused_by(
                old(self)@.len(),
                *final(heap),
            ),
    {
        proof {
            self.data.lemma_wf_bounds();
        }
        let len = self.data.size();
        let r = self.data.try_resize_exact(heap, len);
        proof {
            if r is Ok {
                assert(final(self)@ =~= old(self)@);
            }
        }
        r
    }

    /// Shrinks the capacity to `size`. The bytes from `size` on are removed
    /// first, and then the string moves to a block of exactly `size` bytes.
    /// Nothing happens where the capacity is `size` or less already.
    ///
    /// Fails where the heap refuses the block: the string then keeps its
    /// block, without the bytes that were removed.
    pub fn try_shrink_to<F: RegionFinder>(&mut self, heap: &mut Allocator<F>, size: usize) -> (r:
        Result<(), ()>)
        requires
            old(self).wf(),
            old(self).held_in(*old(heap)),
            old(heap).wf(),
        ensures
            final(heap).wf(),
            old(heap).same_regions(*final(heap)) || old(heap).extended(*final(heap)),
            final(self).wf(),
            final(self).held_in(*final(heap)),
            if old(self).spec_capacity() <= size {
                &&& r is Ok
                &&& *final(self) == *old(self)
                &&& old(heap).same_blocks(*final(heap))
                &&& old(heap).same_regions(*final(heap))
            } else {
                &&& final(self)@ == old(self)@.take(
                    if size <= old(self)@.len() {
                        size as int
                    } else {
                        old(self)@.len() as int
                    },
                )
                &&& match r {
                    Ok(_) => old(self).buffer().rehoused(
                        final(self).buffer(),
                        *old(heap),
                        *final(heap),
                        size as nat,
                    ),
                    Err(_) => {
                        &&& old(self).same_block(*final(self))
                        &&& old(heap).same_blocks(*final(heap))
                    },
                }
            },
            size == 0 ==> r is Ok,
            old(self).spec_capacity() > size && DynamicBuffer::<u8>::granted_by(
                size as nat,
                *old(heap),
            ) ==> r is Ok,
            r is Err ==> old(self).spec_capacity() > size
                && DynamicBuffer::<u8>::refused_by(
                size as nat,
                *final(heap),
            ),
    {
        proof {
            self.data.lemma_wf_bounds();
        }
        if self.data.capacity() > size {
            self.data.truncate_cells(size);
            let ghost cut = self.data;
            let r = self.data.try_resize_exact(heap, size);
            proof {
                if r is Ok {
                    assert(final(self)@ =~= cut@);
                }
            }
            r
        } else {
            Ok(())
        }
    }

    /// The bytes of a string that owns a block.
    pub fn as_bytes(&self) -> (r: &[u8])
        requires
            self.spec_capacity() > 0,
        ensures
            r@ == self@,
    {
        self.data.cells()
    }

    /// The bytes, whether or not the string owns a block.
    pub fn as_bytes_unchecked(&self) -> (r: &[u8])
        ensures
            r@ == self@,
    {
        self.data.cells()
    }

    /// The bytes, or `None` where the string owns no block.
    pub fn as_bytes_checked(&self) -> (r: Option<&[u8]>)
        ensures
            r is Some <==> self.spec_capacity() > 0,
            r matches Some(bytes) ==> bytes@ == self@,
    {
        if self.data.has_data() {
            Some(self.data.cells())
        } else {
            None
        }
    }

    /// The content as a string slice, for a string that owns a block and
    /// holds well-formed UTF-8.
    pub fn as_str(&self) -> (r: &str)
        requires
            self.spec_capacity() > 0,
            valid_utf8(self@),
        ensures
            r.spec_bytes() == self@,
    {
        match strify(self.data.cells()) {
            Some(text) => text,
            None => "",
        }
    }

    /// The content as a string slice, whether or not the string owns a
    /// block, for a string that holds well-formed UTF-8.
    pub fn as_str_unchecked(&self) -> (r: &str)
        requires
            valid_utf8(self@),
        ensures
            r.spec_bytes() == self@,
    {
        match strify(self.data.cells()) {
            Some(text) => text,
            None => "",
        }
    }

    /// The content as a string slice, or `None` where the string owns no
    /// block or does not hold well-formed UTF-8.
    pub fn as_str_checked(&self) -> (r: Option<&str>)
        ensures
            r is Some <==> self.spec_capacity() > 0 && valid_utf8(self@),
            r matches Some(text) ==> text.spec_bytes() == self@,
    {
        if self.data.has_data() {
            strify(self.data.cells())
        } else {
            None
        }
    }

    /// The byte at `index`.
    pub fn index(&self, index: usize) -> (r: u8)
        requires
            index < self@.len(),
        ensures
            r == self@[index as int],
    {
        self.data.cells()[index]
    }

    /// The bytes as a slice for writing, whether or not the string owns
    /// a block. The string keeps its length and its block.
    pub fn as_bytes_mut_unchecked(&mut self) -> (r: &mut [u8])
        requires
            old(self).wf(),
        ensures
            r@ == old(self)@,
            final(r)@.len() == r@.len(),
            final(self)@ == final(r)@,
            old(self).same_block(*final(self)),
            final(self).wf(),
    {
        let len = self.data.size();
        let r = self.data.cells_mut(0, len);
        proof {
            assert(old(self)@.subrange(0, len as int) =~= old(self)@);
            assert(old(self)@.take(0) + final(r)@ + old(self)@.skip(len as int) =~= final(r)@);
        }
        r
    }

    /// The bytes as a slice for writing, or `None` where the string owns
    /// no block. The string keeps its length and its block.
    pub fn as_bytes_mut_checked(&mut self) -> (r: Option<&mut [u8]>)
        requires
            old(self).wf(),
        ensures
            old(self).same_block(*final(self)),
            final(self).wf(),
            match r {
                Some(slice) => {
                    &&& old(self).spec_capacity() > 0
                    &&& slice@ == old(self)@
                    &&& final(slice)@.len() == slice@.len()
                    &&& final(self)@ == final(slice)@
                },
                None => {
                    &&& old(self).spec_capacity() == 0
                    &&& final(self)@ == old(self)@
                },
            },
    {
        if self.data.has_data() {
            Some(self.as_bytes_mut_unchecked())
        } else {
            None
        }
    }

    /// The bytes of the range from `start` to `end` for writing, or `None`
    /// where the range does not lie within the string. What lies outside
    /// the range stays as it is, and the string keeps its length and its
    /// block.
    pub fn get_mut(&mut self, start: Bound, end: Bound) -> (r: Option<&mut [u8]>)
        requires
            old(self).wf(),
        ensures
            old(self).same_block(*final(self)),
            final(self).wf(),
            r is Some <==> spec_range_within(start, end, old(self)@.len()),
            match r {
                Some(slice) => {
                    &&& slice@ == old(self)@.subrange(
                        spec_range_start(start),
                        spec_range_end(end, old(self)@.len()),
                    )
                    &&& final(slice)@.len() == slice@.len()
                    &&& final(self)@ == old(self)@.take(spec_range_start(start)) + final(slice)@
                        + old(self)@.skip(spec_range_end(end, old(self)@.len()))
                },
                None => final(self)@ == old(self)@,
            },
    {
        let len = self.data.size();
        match normalize_bounds(start, end, len) {
            None => None,
            Some((first, behind)) => {
                if first > behind || behind > len {
                    None
                } else {
                    Some(self.data.cells_mut(first, behind))
                }
            },
        }
    }

    /// The bytes of the range from `start` to `end`, which lies within
    /// the string, for writing.
    pub fn get_unchecked_mut(&mut self, start: Bound, end: Bound) -> (r: &mut [u8])
        requires
            old(self).wf(),
            spec_range_within(start, end, old(self)@.len()),
        ensures
            r@ == old(self)@.subrange(
                spec_range_start(start),
                spec_range_end(end, old(self)@.len()),
            ),
            final(r)@.len() == r@.len(),
            final(self)@ == old(self)@.take(spec_range_start(start)) + final(r)@ + old(
                self,
            )@.skip(spec_range_end(end, old(self)@.len())),
            old(self).same_block(*final(self)),
            final(self).wf(),
    {
        let _ = self.data.size();
        let (first, behind) = self.handle_bounds(start, end);
        self.data.cells_mut(first, behind)
    }

    /// The bytes of a string that owns a block, as a slice for writing.
    pub fn as_bytes_mut(&mut self) -> (r: &mut [u8])
        requires
            old(self).wf(),
            old(self).spec_capacity() > 0,
        ensures
            r@ == old(self)@,
            final(r)@.len() == r@.len(),
            final(self)@ == final(r)@,
            old(self).same_block(*final(self)),
            final(self).wf(),
    {
        self.as_bytes_mut_unchecked()
    }

    /// An iterator over the bytes of a string that owns a block, for
    /// writing. The string keeps its length and its block.
    pub fn iter_mut(&mut self) -> (r: core::slice::IterMut<'_, u8>)
        requires
            old(self).wf(),
            old(self).spec_capacity() > 0,
        ensures
            final(self)@.len() == old(self)@.len(),
            old(self).same_block(*final(self)),
            final(self).wf(),
    {
        slice_iter_mut(self.as_bytes_mut_unchecked())
    }

    /// The byte at `index`, for writing.
    pub fn index_mut(&mut self, index: usize) -> (r: &mut u8)
        requires
            old(self).wf(),
            index < old(self)@.len(),
        ensures
            *r == old(self)@[index as int],
            final(self)@ == old(self)@.update(index as int, *final(r)),
            old(self).same_block(*final(self)),
            final(self).wf(),
    {
        self.data.cell_mut(index)
    }

    /// The bytes of the range from `start` to `end`, or `None` where the
    /// range does not lie within the string. Nothing behind the length is
    /// ever read.
    pub fn get(&self, start: Bound, end: Bound) -> (r: Option<&[u8]>)
        ensures
            r is Some <==> spec_range_within(start, end, self@.len()),
            r matches Some(bytes) ==> bytes@ == self@.subrange(
                spec_range_start(start),
                spec_range_end(end, self@.len()),
            ),
    {
        let len = self.data.size();
        match normalize_bounds(start, end, len) {
            None => None,
            Some((first, behind)) => {
                if first > behind || behind > len {
                    None
                } else {
                    Some(vstd::slice::slice_subrange(self.data.cells(), first, behind))
                }
            },
        }
    }

    /// The bytes of the range from `start` to `end` as a string slice, or
    /// `None` where the range does not lie within the string or its bytes are
    /// not well-formed UTF-8.
    pub fn get_str(&self, start: Bound, end: Bound) -> (r: Option<&str>)
        ensures
            r is Some <==> spec_range_within(start, end, self@.len()) && valid_utf8(
                self@.subrange(spec_range_start(start), spec_range_end(end, self@.len())),
            ),
            r matches Some(text) ==> text.spec_bytes() == self@.subrange(
                spec_range_start(start),
                spec_range_end(end, self@.len()),
            ),
    {
        match self.get(start, end) {
            Some(bytes) => strify(bytes),
            None => None,
        }
    }

    /// Whether the string owns a block and holds the bytes of `other`: a
    /// string without a block equals no string slice.
    pub fn eq_str(&self, other: &str) -> (r: bool)
        ensures
            r == (self.spec_capacity() > 0 && self@ == other.spec_bytes()),
    {
        if self.data.has_data() {
            bytes_eq(self.data.cells(), other.as_bytes())
        } else {
            false
        }
    }

    /// Whether the two strings are equal. A string without a block equals
    /// the strings without bytes; a string with a block equals the strings
    /// with a block and the same bytes.
    pub fn eq(&self, other: &String) -> (r: bool)
        ensures
            r == (if self.spec_capacity() == 0 {
                other@.len() == 0
            } else {
                other.spec_capacity() > 0 && self@ == other@
            }),
    {
        if !self.data.has_data() {
            other.data.size() == 0
        } else if !other.data.has_data() {
            false
        } else {
            bytes_eq(self.data.cells(), other.data.cells())
        }
    }

    /// Whether the string differs from `other`: the opposite of `eq_str`.
    pub fn ne_str(&self, other: &str) -> (r: bool)
        ensures
            r == !(self.spec_capacity() > 0 && self@ == other.spec_bytes()),
    {
        !self.eq_str(other)
    }

    /// Whether the two strings differ: the opposite of `eq`.
    pub fn ne(&self, other: &String) -> (r: bool)
        ensures
            r == !(if self.spec_capacity() == 0 {
                other@.len() == 0
            } else {
                other.spec_capacity() > 0 && self@ == other@
            }),
    {
        !self.eq(other)
    }

    /// Whether the string comes before `other`: a string without a block
    /// comes before no string slice, and a string with a block goes by the
    /// order of the dictionary.
    pub open spec fn before_str(&self, other: Seq<u8>) -> bool {
        self.spec_capacity() > 0 && bytes_before(self@, other)
    }

    /// Whether the string comes behind `other`: a string without a block
    /// comes behind every string slice that has a byte, and a string with a
    /// block goes by the order of the dictionary.
    pub open spec fn behind_str(&self, other: Seq<u8>) -> bool {
        if self.spec_capacity() > 0 {
            bytes_before(other, self@)
        } else {
            other.len() > 0
        }
    }

    /// Whether the string comes before `other`.
    pub fn lt(&self, other: &str) -> (r: bool)
        ensures
            r == self.before_str(other.spec_bytes()),
    {
        if self.data.has_data() {
            bytes_less(self.data.cells(), other.as_bytes())
        } else {
            false
        }
    }

    /// Whether the string comes behind `other`.
    pub fn gt(&self, other: &str) -> (r: bool)
        ensures
            r == self.behind_str(other.spec_bytes()),
    {
        if self.data.has_data() {
            bytes_less(other.as_bytes(), self.data.cells())
        } else {
            other.as_bytes().len() > 0
        }
    }

    /// Whether the string does not come behind `other`.
    pub fn le(&self, other: &str) -> (r: bool)
        ensures
            r == !self.behind_str(other.spec_bytes()),
    {
        !self.gt(other)
    }

    /// Whether the string does not come before `other`.
    pub fn ge(&self, other: &str) -> (r: bool)
        ensures
            r == !self.before_str(other.spec_bytes()),
    {
        !self.lt(other)
    }

    /// A string with the bytes of `value`, in a block of the capacity that
    /// the growth policy rounds their number to.
    ///
    /// Fails where the heap refuses the block.
    pub fn try_from_str<F: RegionFinder>(heap: &mut Allocator<F>, step: usize, value: &str) -> (r:
        Result<Self, ()>)
        requires
            old(heap).wf(),
        ensures
            final(heap).wf(),
            old(heap).same_regions(*final(heap)) || old(heap).extended(*final(heap)),
            match r {
                Ok(text) => {
                    &&& text.wf()
                    &&& text.held_in(*final(heap))
                    &&& text@ == value.spec_bytes()
                    &&& valid_utf8(text@)
                    &&& text.spec_step() == step
                    &&& text.spec_capacity() == spec_new_capacity(
                        step as nat,
                        value.spec_bytes().len(),
                    )
                    &&& text.buffer().created(*old(heap), *final(heap))
                },
                Err(_) => old(heap).same_blocks(*final(heap)),
            },
            spec_new_capacity(step as nat, value.spec_bytes().len()) == 0 ==> r is Ok,
            DynamicBuffer::<u8>::granted_by(
                spec_new_capacity(step as nat, value.spec_bytes().len()),
                *old(heap),
            ) ==> r is Ok,
            r is Err ==> DynamicBuffer::<u8>::refused_by(
                spec_new_capacity(step as nat, value.spec_bytes().len()),
                *final(heap),
            ),
    {
        let bytes = value.as_bytes();
        let mut data = match DynamicBuffer::try_with_capacity(heap, step, bytes.len()) {
            Ok(data) => data,
            Err(_) => {
                return Err(());
            },
        };
        data.extend_cells(bytes);
        proof {
            encode_utf8_valid_utf8(value@);
            assert(data@ =~= value.spec_bytes());
        }
        Ok(String { data })
    }

    /// A clone: a string of the same capacity and step in a block of its
    /// own, with the same bytes.
    ///
    /// Fails where the heap refuses the block.
    pub fn try_clone<F: RegionFinder>(&self, heap: &mut Allocator<F>) -> (r: Result<Self, ()>)
        requires
            self.wf(),
            self.held_in(*old(heap)),
            old(heap).wf(),
        ensures
            final(heap).wf(),
            old(heap).same_regions(*final(heap)) || old(heap).extended(*final(heap)),
            self.held_in(*final(heap)),
            match r {
                Ok(copy) => {
                    &&& copy.wf()
                    &&& copy.held_in(*final(heap))
                    &&& copy@ == self@
                    &&& copy.spec_step() == self.spec_step()
                    &&& copy.spec_capacity() == self.spec_capacity()
                    &&& copy.buffer().created(*old(heap), *final(heap))
                },
                Err(_) => old(heap).same_blocks(*final(heap)),
            },
            self.spec_capacity() == 0 ==> r is Ok,
            DynamicBuffer::<u8>::granted_by(
                self.spec_capacity(),
                *old(heap),
            ) ==> r is Ok,
            r is Err ==> DynamicBuffer::<u8>::refused_by(
                self.spec_capacity(),
                *final(heap),
            ),
    {
        proof {
            self.data.lemma_wf_bounds();
        }
        let mut data = match self.data.try_clone(heap) {
            Ok(data) => data,
            Err(_) => {
                return Err(());
            },
        };
        data.extend_cells(self.data.cells());
        assert(data@ =~= self@);
        Ok(String { data })
    }

    /// An iterator over the bytes of a string that owns a block.
    pub fn iter(&self) -> (r: core::slice::Iter<'_, u8>)
        requires
            self.spec_capacity() > 0,
        ensures
            vstd::std_specs::slice::into_iter_elts(r) == self@,
    {
        broadcast use vstd::std_specs::slice::axiom_spec_slice_iter;

        let r = self.data.cells().iter();
        assert(vstd::std_specs::slice::into_iter_elts(r) =~= self@);
        r
    }

    /// Gives up the string without giving its block back: the block stays
    /// live in the heap for good, and the bytes go to the caller.
    pub fn leak(self) -> (r: std::vec::Vec<u8>)
        requires
            self.spec_capacity() > 0,
        ensures
            r@ == self@,
    {
        let (_, _, cells) = self.data.into_raw_parts();
        cells
    }

    /// Gives the block back to the heap and ends the string.
    pub fn release<F: RegionFinder>(self, heap: &mut Allocator<F>)
        requires
            self.wf(),
            self.held_in(*old(heap)),
            old(heap).wf(),
        ensures
            final(heap).wf(),
            old(heap).same_regions(*final(heap)),
            final(heap).blocks() == self.buffer().without_block(old(heap).blocks()),
            final(heap).spec_allocated() + self.buffer().block_bytes() == old(
                heap,
            ).spec_allocated(),
    {
        self.data.release(heap);
    }
}

} // verus!
