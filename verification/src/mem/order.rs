//! The order of a byte-string against a string slice, as one answer.

use crate::mem::string::String;
use core::cmp::Ordering;
use vstd::prelude::*;
use vstd::string::StringSliceAdditionalSpecFns;

verus! {

impl String {
    /// How the string stands to `other`: before it, behind it, or neither.
    /// There is always an answer.
    pub fn partial_cmp(&self, other: &str) -> (r: Option<Ordering>)
        ensures
            r is Some,
            r == Some(Ordering::Less) <==> self.before_str(other.spec_bytes()),
            r == Some(Ordering::Greater) <==> !self.before_str(other.spec_bytes())
                && self.behind_str(other.spec_bytes()),
    {
        if self.lt(other) {
            Some(Ordering::Less)
        } else if self.gt(other) {
            Some(Ordering::Greater)
        } else {
            Some(Ordering::Equal)
        }
    }
}

} // verus!
