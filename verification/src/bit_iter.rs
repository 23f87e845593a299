//! Entry points: every binary value can start each of the six traversals.

use crate::binary::Binary;
use crate::iters::{Bits, BitsRev, OneIndices, Ones, ZeroIndices, Zeros};
use crate::pattern::positions;
use vstd::prelude::*;

verus! {

/// A trait for iterating a binary value's bits.
///
/// Each method takes the value by copy: the traversal works on its own copy
/// and the caller's value stays as it was.
pub trait BitIter: Binary {
    /// Returns an iterator over the value's zero-bits.
    ///
    /// Contains values with one bit set to one, that being the zero-bit it's
    /// representing.
    fn zeros(self) -> (r: Zeros<Self>)
        ensures
            r@ == positions(self.pattern(), false),
    {
        Zeros::new(self)
    }

    /// Returns an iterator over the value's one-bits.
    ///
    /// Contains values with one bit set to one, that being the one-bit it's
    /// representing.
    fn ones(self) -> (r: Ones<Self>)
        ensures
            r@ == positions(self.pattern(), true),
    {
        Ones::new(self)
    }

    /// Returns an iterator over the indices of the value's zero-bits.
    ///
    /// Contains a `u32` in range `0..N` where `N` is the value's size in
    /// bits. The index `0` is the least significant bit, with `N - 1` being
    /// the most significant.
    fn zero_indices(self) -> (r: ZeroIndices<Self>)
        ensures
            r@ == positions(self.pattern(), false),
    {
        ZeroIndices::new(self)
    }

    /// Returns an iterator over the indices of the value's one-bits.
    ///
    /// Contains a `u32` in range `0..N` where `N` is the value's size in
    /// bits. The index `0` is the least significant bit, with `N - 1` being
    /// the most significant.
    fn one_indices(self) -> (r: OneIndices<Self>)
        ensures
            r@ == positions(self.pattern(), true),
    {
        OneIndices::new(self)
    }

    /// Returns an iterator over the value's bits.
    ///
    /// Contains a `bool`, with `true` meaning the bit is one and `false`
    /// meaning it is zero.
    fn bits(self) -> (r: Bits<Self>)
        ensures
            r@ == self.pattern(),
    {
        Bits::new(self)
    }

    /// Returns an iterator over the value's bits reversed.
    ///
    /// Contains a `bool`, with `true` meaning the bit is one and `false`
    /// meaning it is zero.
    fn bits_rev(self) -> (r: BitsRev<Self>)
        ensures
            r@ == self.pattern().reverse(),
    {
        BitsRev::new(self)
    }
}

impl<T: Binary> BitIter for T {

}

} // verus!
