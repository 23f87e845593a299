use crate::binary::{lemma_no_bits_left, Binary};
use crate::pattern::{
    ascending, lemma_positions, lemma_positions_pop_back, lemma_positions_pop_front, positions,
};
use vstd::prelude::*;

verus! {

/// An iterator over the indices of the 0-bits in a binary value.
///
/// Index `0` is the least significant bit.
#[derive(Debug, PartialEq, Eq)]
pub struct ZeroIndices<T: Binary> {
    /// The current value.
    n: T,
}

impl<T: Binary> Clone for ZeroIndices<T> {
    fn clone(&self) -> (r: Self)
        ensures
            r == *self,
    {
        *self
    }
}

impl<T: Binary> Copy for ZeroIndices<T> {

}

impl<T: Binary> ZeroIndices<T> {
    /// The indices that are still to come, in ascending order. `next` takes
    /// from the front of this list and `next_back` from its back.
    pub closed spec fn view(&self) -> Seq<int> {
        positions(self.n.pattern(), false)
    }

    /// The list holds positions of the value, each once and in ascending
    /// order.
    pub proof fn lemma_view(self)
        ensures
            ascending(self@),
            forall|k: int| 0 <= k < self@.len() ==> 0 <= #[trigger] self@[k] < T::width(),
    {
        T::lemma_width(self.n);
        lemma_positions(self.n.pattern(), false);
    }

    /// Returns an iterator over the indices of the 0-bits in the binary value.
    pub fn new(n: T) -> (r: Self)
        ensures
            r@ == positions(n.pattern(), false),
    {
        Self { n }
    }

    /// Takes the index of the least significant 0-bit that is left, if any.
    pub fn next(&mut self) -> (r: Option<u32>)
        ensures
            match r {
                Some(i) => {
                    &&& old(self)@.len() > 0
                    &&& i == old(self)@.first()
                    &&& i <= T::MAX_BIT_IDX
                    &&& final(self)@ == old(self)@.drop_first()
                },
                None => old(self)@.len() == 0 && *final(self) == *old(self),
            },
    {
        let ghost p = self.n.pattern();
        proof {
            T::lemma_eq();
            T::lemma_width(self.n);
            lemma_no_bits_left(self.n);
        }
        // Stop if there are no more 0s.
        if self.n != T::FULL {
            proof {
                T::lemma_constants();
                lemma_positions(p, false);
                lemma_positions_pop_front(p, false);
            }
            // Get the index of the least significant 0 and toggle it to 1.
            let i = self.n.trailing_ones();
            self.n = self.n.bitxor(T::ONE.shl(i));
            proof {
                assert(self.n.pattern() =~= p.update(i as int, true));
            }
            Some(i)
        } else {
            None
        }
    }

    /// Takes the index of the most significant 0-bit that is left, if any.
    pub fn next_back(&mut self) -> (r: Option<u32>)
        ensures
            match r {
                Some(i) => {
                    &&& old(self)@.len() > 0
                    &&& i == old(self)@.last()
                    &&& i <= T::MAX_BIT_IDX
                    &&& final(self)@ == old(self)@.drop_last()
                },
                None => old(self)@.len() == 0 && *final(self) == *old(self),
            },
    {
        let ghost p = self.n.pattern();
        proof {
            T::lemma_eq();
            T::lemma_width(self.n);
            lemma_no_bits_left(self.n);
        }
        // Stop if there are no more 0s.
        if self.n != T::FULL {
            proof {
                T::lemma_constants();
                lemma_positions(p, false);
                lemma_positions_pop_back(p, false);
            }
            // Get the index of the most significant 0 and toggle it to 1.
            let i = T::MAX_BIT_IDX - self.n.leading_ones();
            self.n = self.n.bitxor(T::ONE.shl(i));
            proof {
                assert(self.n.pattern() =~= p.update(i as int, true));
            }
            Some(i)
        } else {
            None
        }
    }
}

} // verus!
