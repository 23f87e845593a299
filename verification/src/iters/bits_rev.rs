use crate::binary::Binary;
use crate::pattern::{high_run, lemma_high_run, lemma_high_run_unique, mask_at, uniform};
use vstd::prelude::*;

verus! {

/// An iterator over the bits in a value, most significant first.
///
/// Each item tells whether the bit is a 1.
#[derive(Debug, PartialEq, Eq)]
pub struct BitsRev<T: Binary> {
    /// The value, which stays as it was given.
    n: T,
    /// The current bit: a single 1 at the position to look at next, or zero
    /// once every position has been looked at.
    b: T,
}

impl<T: Binary> Clone for BitsRev<T> {
    fn clone(&self) -> (r: Self)
        ensures
            r == *self,
    {
        *self
    }
}

impl<T: Binary> Copy for BitsRev<T> {

}

impl<T: Binary> BitsRev<T> {
    /// How many positions are still to be looked at: one more than the
    /// position that the current bit points at.
    spec fn left(&self) -> int {
        T::width() - high_run(self.b.pattern(), false)
    }

    #[verifier::type_invariant]
    spec fn well_formed(&self) -> bool {
        self.b.pattern() == mask_at(T::width(), self.left() - 1)
    }

    /// The bits that are still to come, in the order in which `next` hands
    /// them out.
    pub closed spec fn view(&self) -> Seq<bool> {
        self.n.pattern().take(self.left()).reverse()
    }

    /// Returns an iterator over the given value's bits in reverse.
    pub fn new(n: T) -> (r: Self)
        ensures
            r@ == n.pattern().reverse(),
    {
        proof {
            T::lemma_constants();
            T::lemma_width(n);
        }
        Self { n, b: T::TOP }
    }

    /// Takes the next bit, if any is left.
    pub fn next(&mut self) -> (r: Option<bool>)
        ensures
            match r {
                Some(x) => {
                    &&& old(self)@.len() > 0
                    &&& x == old(self)@.first()
                    &&& final(self)@ == old(self)@.drop_first()
                },
                None => old(self)@.len() == 0 && *final(self) == *old(self),
            },
    {
        let ghost p = self.n.pattern();
        let ghost left = self.left();
        proof {
            use_type_invariant(&*self);
            T::lemma_eq();
            T::lemma_constants();
            T::lemma_width(self.n);
            lemma_high_run(self.b.pattern(), false);
            if left == 0 {
                assert(self.b.pattern() =~= uniform(T::width(), false));
                T::lemma_pattern_injective(self.b, T::ZERO);
            }
        }
        // Stop if all bits were processed.
        if self.b != T::ZERO {
            // Get the current bit and push the mask.
            let x = self.n.bitand(self.b);
            let b = self.b.unbounded_shr(1);
            proof {
                assert(b.pattern() =~= mask_at(T::width(), left - 2));
                lemma_high_run_unique(b.pattern(), false, T::width() - (left - 1));
                if !p[left - 1] {
                    assert(x.pattern() =~= uniform(T::width(), false));
                    T::lemma_pattern_injective(x, T::ZERO);
                } else {
                    assert(x.pattern()[left - 1]);
                }
            }
            self.b = b;
            Some(x != T::ZERO)
        } else {
            None
        }
    }
}

} // verus!
