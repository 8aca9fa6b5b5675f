//! Tokens: the opaque units of input that recognizers read.

use vstd::prelude::*;

verus! {

/// A unit of input. A token can be copied freely and tested for equality with
/// another token; nothing else is asked of it.
pub trait Token: Copy {
    /// Whether `self` and `other` are the same token.
    fn same(&self, other: &Self) -> (equal: bool)
        ensures
            equal == (*self == *other),
    ;
}

impl Token for char {
    fn same(&self, other: &Self) -> (equal: bool) {
        *self == *other
    }
}

impl Token for u8 {
    fn same(&self, other: &Self) -> (equal: bool) {
        *self == *other
    }
}

impl Token for u16 {
    fn same(&self, other: &Self) -> (equal: bool) {
        *self == *other
    }
}

impl Token for u32 {
    fn same(&self, other: &Self) -> (equal: bool) {
        *self == *other
    }
}

impl Token for u64 {
    fn same(&self, other: &Self) -> (equal: bool) {
        *self == *other
    }
}

impl Token for usize {
    fn same(&self, other: &Self) -> (equal: bool) {
        *self == *other
    }
}

} // verus!
