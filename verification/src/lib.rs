//! A small standard library for a freestanding kernel: a heap allocator
//! facade with a one-shot out-of-memory recovery protocol, a growable buffer
//! with a configurable growth policy, and the owned collections built on it.

pub mod boot;
pub mod convert;
pub mod init;
pub mod manage;
pub mod mem;

pub use mem::boxed::Box;
pub use mem::dynamic_buffer::DynamicBuffer;
pub use mem::heap::{Allocator, Heap, Layout, RegionFinder};
pub use mem::string::String;
pub use mem::vec::Vec;
pub use mem::{Bound, Region};

use vstd::prelude::*;

verus! {

/// Cloning that can fail.
pub trait TryClone: Sized {
    type Error;

    fn try_clone(&self) -> Result<Self, Self::Error>;
}

/// Whether `copy` is a value that `try_clone` can return for `source`.
pub open spec fn try_cloned<T: TryClone>(source: T, copy: T) -> bool {
    call_ensures(T::try_clone, (&source,), Ok(copy))
}

/// Whether `error` is an error that `try_clone` can return for `source`.
pub open spec fn try_clone_refused<T: TryClone>(source: T, error: T::Error) -> bool {
    call_ensures(T::try_clone, (&source,), Err(error))
}

/// The value that stands for nothing: an error that carries no data.
#[derive(Clone, Copy, Debug, PartialEq, Eq, Structural)]
pub struct Nothing();

impl Default for Nothing {
    fn default() -> (r: Self)
        ensures
            r == Nothing(),
    {
        Nothing()
    }
}

impl TryClone for Nothing {
    type Error = Nothing;

    fn try_clone(&self) -> (r: Result<Self, Nothing>)
        ensures
            r == Ok::<Nothing, Nothing>(*self),
    {
        Ok(*self)
    }
}

/// A value that can be read and never changed.
pub struct Immutable<T> {
    data: T,
}

impl<T> View for Immutable<T> {
    type V = T;

    closed spec fn view(&self) -> T {
        self.data
    }
}

impl<T> Immutable<T> {
    pub fn new(val: T) -> (r: Self)
        ensures
            r@ == val,
    {
        Immutable { data: val }
    }

    /// The value.
    pub fn deref(&self) -> (r: &T)
        ensures
            *r == self@,
    {
        &self.data
    }
}

} // verus!
