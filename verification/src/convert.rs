//! Rounding numbers up to an alignment, and testing whether they are
//! aligned.

use vstd::prelude::*;
use vstd::string::StringSliceAdditionalSpecFns;
use vstd::utf8::valid_utf8;

verus! {

/// Calls `core::str::from_utf8`, which returns the bytes as a string slice
/// where they are well-formed UTF-8, and an error where they are not.
#[verifier::external_body]
fn str_from_utf8(bytes: &[u8]) -> (r: Option<&str>)
    ensures
        r is Some <==> valid_utf8(bytes@),
        r matches Some(text) ==> text.spec_bytes() == bytes@,
{
    core::str::from_utf8(bytes).ok()
}

/// The bytes as a string slice, or `None` where they are not well-formed
/// UTF-8.
pub fn strify(s: &[u8]) -> (r: Option<&str>)
    ensures
        r is Some <==> valid_utf8(s@),
        r matches Some(text) ==> text.spec_bytes() == s@,
{
    str_from_utf8(s)
}

/// Rounding up to an alignment.
pub trait Align: Sized {
    /// Whether `self` can be rounded up to `align`: the alignment is not
    /// zero, and the sum of the two stays within the type.
    spec fn can_align(&self, align: Self) -> bool;

    /// `self` rounded up to `align`.
    spec fn aligned_up(&self, align: Self) -> Self;

    /// Returns `self` rounded up to `align`.
    fn align(&self, align: Self) -> (r: Self)
        requires
            self.can_align(align),
        ensures
            r == self.aligned_up(align),
    ;

    /// Rounds `self` up to `align`.
    fn align_mut(&mut self, align: Self)
        requires
            old(self).can_align(align),
        ensures
            *final(self) == old(self).aligned_up(align),
    ;
}

/// Testing for alignment.
pub trait IsAligned: Sized {
    /// Whether `self` can be tested against `align`: the alignment is not
    /// zero.
    spec fn can_test(&self, align: Self) -> bool;

    /// Whether `self` has none of the bits below `align`.
    spec fn aligned_to(&self, align: Self) -> bool;

    fn is_aligned(&self, align: Self) -> (r: bool)
        requires
            self.can_test(align),
        ensures
            r == self.aligned_to(align),
    ;

    fn is_not_aligned(&self, align: Self) -> (r: bool)
        requires
            self.can_test(align),
        ensures
            r == !self.aligned_to(align),
    ;
}

impl Align for usize {
    open spec fn can_align(&self, align: usize) -> bool {
        align > 0 && *self + align <= usize::MAX
    }

    open spec fn aligned_up(&self, align: usize) -> usize {
        ((*self + align - 1) as usize) & !((align - 1) as usize)
    }

    fn align(&self, align: usize) -> (r: usize) {
        (*self + align - 1) & !(align - 1)
    }

    fn align_mut(&mut self, align: usize) {
        *self = (*self + align - 1) & !(align - 1);
    }
}

impl IsAligned for usize {
    open spec fn can_test(&self, align: usize) -> bool {
        align > 0
    }

    open spec fn aligned_to(&self, align: usize) -> bool {
        *self == *self & !((align - 1) as usize)
    }

    fn is_aligned(&self, align: usize) -> (r: bool) {
        *self == *self & !(align - 1)
    }

    fn is_not_aligned(&self, align: usize) -> (r: bool) {
        *self != *self & !(align - 1)
    }
}

impl Align for u32 {
    open spec fn can_align(&self, align: u32) -> bool {
        align > 0 && *self + align <= u32::MAX
    }

    open spec fn aligned_up(&self, align: u32) -> u32 {
        ((*self + align - 1) as u32) & !((align - 1) as u32)
    }

    fn align(&self, align: u32) -> (r: u32) {
        (*self + align - 1) & !(align - 1)
    }

    fn align_mut(&mut self, align: u32) {
        *self = (*self + align - 1) & !(align - 1);
    }
}

impl IsAligned for u32 {
    open spec fn can_test(&self, align: u32) -> bool {
        align > 0
    }

    open spec fn aligned_to(&self, align: u32) -> bool {
        *self == *self & !((align - 1) as u32)
    }

    fn is_aligned(&self, align: u32) -> (r: bool) {
        *self == *self & !(align - 1)
    }

    fn is_not_aligned(&self, align: u32) -> (r: bool) {
        *self != *self & !(align - 1)
    }
}

/// Rounding a `u32` up to a power of two gives a number that is aligned,
/// is not below the number and is less than the alignment above it; an
/// aligned number stays as it is.
pub proof fn lemma_align_u32(x: u32, align: u32)
    requires
        x.can_align(align),
        align & ((align - 1) as u32) == 0,
    ensures
        x.aligned_up(align) >= x,
        x.aligned_up(align) - x < align,
        x.aligned_up(align).aligned_to(align),
        x.aligned_to(align) ==> x.aligned_up(align) == x,
{
    let s = (x + align - 1) as u32;
    let m = (align - 1) as u32;
    assert((s & !m) <= s && s - (s & !m) <= m && (s & !m) == (s & !m) & !m) by (bit_vector);
    assert(x == x & !m ==> (s & !m) == x) by (bit_vector)
        requires
            align > 0,
            m == align - 1,
            align & m == 0,
            s == x + m,
            x <= 0xffff_ffffu32 - align,
    ;
}

/// Rounding a `usize` up to a power of two gives a number that is aligned,
/// is not below the number and is less than the alignment above it; an
/// aligned number stays as it is.
pub proof fn lemma_align_usize(x: usize, align: usize)
    requires
        x.can_align(align),
        align & ((align - 1) as usize) == 0,
    ensures
        x.aligned_up(align) >= x,
        x.aligned_up(align) - x < align,
        x.aligned_up(align).aligned_to(align),
        x.aligned_to(align) ==> x.aligned_up(align) == x,
{
    let s = (x + align - 1) as usize;
    let m = (align - 1) as usize;
    assert((s & !m) <= s && s - (s & !m) <= m && (s & !m) == (s & !m) & !m) by (bit_vector);
    assert(x == x & !m ==> (s & !m) == x) by (bit_vector)
        requires
            align > 0,
            m == align - 1,
            align & m == 0,
            s - m == x,
            s >= m,
    ;
}

} // verus!
