use crate::binary::Binary;
use crate::pattern::{lemma_low_run, lemma_low_run_unique, low_run, mask_at, uniform};
use vstd::prelude::*;

verus! {

/// An iterator over the bits in a value, least significant first.
///
/// Each item tells whether the bit is a 1.
#[derive(Debug, PartialEq, Eq)]
pub struct Bits<T: Binary> {
    /// The value, which stays as it was given.
    n: T,
    /// The current bit: a single 1 at the position to look at next, or zero
    /// once every position has been looked at.
    b: T,
}

impl<T: Binary> Clone for Bits<T> {
    fn clone(&self) -> (r: Self)
        ensures
            r == *self,
    {
        *self
    }
}

impl<T: Binary> Copy for Bits<T> {

}

impl<T: Binary> Bits<T> {
    /// The position that the current bit points at; the width once it has
    /// moved past the top.
    spec fn cursor(&self) -> int {
        low_run(self.b.pattern(), false) as int
    }

    #[verifier::type_invariant]
    spec fn well_formed(&self) -> bool {
        self.b.pattern() == mask_at(T::width(), self.cursor())
    }

    /// The bits that are still to come, in the order in which `next` hands
    /// them out.
    pub closed spec fn view(&self) -> Seq<bool> {
        self.n.pattern().skip(self.cursor())
    }

    /// Returns an iterator over the given value's bits.
    pub fn new(n: T) -> (r: Self)
        ensures
            r@ == n.pattern(),
    {
        proof {
            T::lemma_constants();
        }
        Self { n, b: T::ONE }
    }

    /// Takes the next bit, if any is left.
    pub fn next(&mut self) -> (r: Option<bool>)
        ensures
            match r {
                Some(x) => {
                    &&& old(self)@.len() > 0
                    &&& x == old(self)@.first()
                    &&& final(self)@ == old(self)@.drop_first()
                },
                None => old(self)@.len() == 0 && *final(self) == *old(self),
            },
    {
        let ghost p = self.n.pattern();
        let ghost at = self.cursor();
        proof {
            use_type_invariant(&*self);
            T::lemma_eq();
            T::lemma_constants();
            T::lemma_width(self.n);
            lemma_low_run(self.b.pattern(), false);
            if at == T::width() {
                assert(self.b.pattern() =~= uniform(T::width(), false));
                T::lemma_pattern_injective(self.b, T::ZERO);
            }
        }
        // Stop if all bits were processed.
        if self.b != T::ZERO {
            // Get the current bit and push the mask.
            let x = self.n.bitand(self.b);
            let b = self.b.unbounded_shl(1);
            proof {
                assert(b.pattern() =~= mask_at(T::width(), at + 1));
                lemma_low_run_unique(b.pattern(), false, at + 1);
                if !p[at] {
                    assert(x.pattern() =~= uniform(T::width(), false));
                    T::lemma_pattern_injective(x, T::ZERO);
                } else {
                    assert(x.pattern()[at]);
                }
            }
            self.b = b;
            Some(x != T::ZERO)
        } else {
            None
        }
    }
}

} // verus!
