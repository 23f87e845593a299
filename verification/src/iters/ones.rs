use crate::binary::{lemma_no_bits_left, Binary};
use crate::pattern::{
    ascending, lemma_positions, lemma_positions_pop_back, lemma_positions_pop_front, mask_at,
    positions,
};
use vstd::prelude::*;

verus! {

/// An iterator over the 1-bits in a binary value.
///
/// Each item is a value with a single bit set: the 1-bit it stands for.
#[derive(Debug, PartialEq, Eq)]
pub struct Ones<T: Binary> {
    /// The current value.
    n: T,
}

impl<T: Binary> Clone for Ones<T> {
    fn clone(&self) -> (r: Self)
        ensures
            r == *self,
    {
        *self
    }
}

impl<T: Binary> Copy for Ones<T> {

}

impl<T: Binary> Ones<T> {
    /// The positions of the 1-bits that are still to come, in ascending
    /// order. `next` takes from the front of this list and `next_back` from
    /// its back.
    pub closed spec fn view(&self) -> Seq<int> {
        positions(self.n.pattern(), true)
    }

    /// The list holds positions of the value, each once and in ascending
    /// order.
    pub proof fn lemma_view(self)
        ensures
            ascending(self@),
            forall|k: int| 0 <= k < self@.len() ==> 0 <= #[trigger] self@[k] < T::width(),
    {
        T::lemma_width(self.n);
        lemma_positions(self.n.pattern(), true);
    }

    /// Returns an iterator over the 1-bits in the binary value.
    pub fn new(n: T) -> (r: Self)
        ensures
            r@ == positions(n.pattern(), true),
    {
        Self { n }
    }

    /// Takes the least significant 1-bit that is left, if any.
    pub fn next(&mut self) -> (r: Option<T>)
        ensures
            match r {
                Some(b) => {
                    &&& old(self)@.len() > 0
                    &&& 0 <= old(self)@.first() < T::width()
                    &&& b.pattern() == mask_at(T::width(), old(self)@.first())
                    &&& final(self)@ == old(self)@.drop_first()
                },
                None => old(self)@.len() == 0 && *final(self) == *old(self),
            },
    {
        let ghost p = self.n.pattern();
        proof {
            T::lemma_eq();
            T::lemma_width(self.n);
            lemma_no_bits_left(self.n);
        }
        // Stop if there are no more 1s.
        if self.n != T::ZERO {
            // Get the least significant 1 and toggle it to 0.
            let b = self.n.lowest_one();
            self.n = self.n.bitxor(b);
            proof {
                lemma_positions(p, true);
                lemma_positions_pop_front(p, true);
                let i = positions(p, true).first();
                assert(self.n.pattern() =~= p.update(i, false));
            }
            Some(b)
        } else {
            None
        }
    }

    /// Takes the most significant 1-bit that is left, if any.
    pub fn next_back(&mut self) -> (r: Option<T>)
        ensures
            match r {
                Some(b) => {
                    &&& old(self)@.len() > 0
                    &&& 0 <= old(self)@.last() < T::width()
                    &&& b.pattern() == mask_at(T::width(), old(self)@.last())
                    &&& final(self)@ == old(self)@.drop_last()
                },
                None => old(self)@.len() == 0 && *final(self) == *old(self),
            },
    {
        let ghost p = self.n.pattern();
        proof {
            T::lemma_eq();
            T::lemma_width(self.n);
            lemma_no_bits_left(self.n);
        }
        // Stop if there are no more 1s.
        if self.n != T::ZERO {
            // Get the most significant 1 and toggle it to 0.
            let b = self.n.highest_one();
            self.n = self.n.bitxor(b);
            proof {
                lemma_positions(p, true);
                lemma_positions_pop_back(p, true);
                let i = positions(p, true).last();
                assert(self.n.pattern() =~= p.update(i, false));
            }
            Some(b)
        } else {
            None
        }
    }
}

} // verus!
