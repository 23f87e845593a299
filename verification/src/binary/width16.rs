//! `Binary` for the 16-bit integers, `u16` and `i16`.
//!
//! An `i16` has the bit pattern of the `u16` it casts to, and every operation
//! on it is carried out on that `u16`.

use crate::binary::Binary;
use crate::pattern::{
    and_of, lemma_high_run_unique, lemma_low_run_unique, mask_at, not_of, or_of, shift_down,
    shift_up, uniform, xor_of,
};
use vstd::prelude::*;
use vstd::std_specs::bits::{
    axiom_u16_leading_ones, axiom_u16_leading_zeros, axiom_u16_trailing_ones,
    axiom_u16_trailing_zeros, u16_trailing_zeros,
};

verus! {

/// Whether bit `i` of `a` is set.
pub open spec fn bit_u16(a: u16, i: u16) -> bool {
    (a >> i) & 1 == 1
}

/// How each operator on `u16` acts on a single bit: `i` is the position
/// looked at and `n` a shift distance.
proof fn lemma_bits_u16(a: u16, b: u16, i: u16, n: u16)
    by (bit_vector)
    requires
        i < 16,
        n < 16,
    ensures
        bit_u16(a & b, i) == (bit_u16(a, i) && bit_u16(b, i)),
        bit_u16(a | b, i) == (bit_u16(a, i) || bit_u16(b, i)),
        bit_u16(a ^ b, i) == (bit_u16(a, i) != bit_u16(b, i)),
        bit_u16(!a, i) == !bit_u16(a, i),
        bit_u16(a << n, i) == (i >= n && bit_u16(a, (i - n) as u16)),
        bit_u16(a >> n, i) == (i + n < 16 && bit_u16(a, (i + n) as u16)),
        bit_u16(0, i) == false,
        bit_u16(1, i) == (i == 0),
        bit_u16(0xffff, i) == true,
        bit_u16(0x8000, i) == (i == 15),
        bit_u16(a, i) == ((a >> i) & 1 != 0),
        a ^ b == 0 ==> a == b,
{
}

impl Binary for u16 {
    open spec fn width() -> nat {
        16
    }

    open spec fn pattern(self) -> Seq<bool> {
        Seq::new(16, |i: int| bit_u16(self, i as u16))
    }

    const ZERO: Self = 0;

    const ONE: Self = 1;

    const FULL: Self = 0xffff;

    const TOP: Self = 0x8000;

    const MAX_BIT_IDX: u32 = 15;

    proof fn lemma_width(v: Self) {
        assert(v.pattern().len() == 16);
        assert(Self::width() == Self::MAX_BIT_IDX + 1);
    }

    proof fn lemma_pattern_injective(a: Self, b: Self) {
        if a != b {
            // The lowest 1-bit of `a ^ b` is a position where `a` and `b` differ.
            let x = a ^ b;
            let k = u16_trailing_zeros(x);
            axiom_u16_trailing_zeros(x);
            lemma_bits_u16(a, b, 0, 0);
            assert(bit_u16(x, k as u16));
            lemma_bits_u16(a, b, k as u16, 0);
            assert(a.pattern()[k as int] == bit_u16(a, k as u16));
            assert(b.pattern()[k as int] == bit_u16(b, k as u16));
        }
    }

    proof fn lemma_constants() {
        assert forall|i: int| 0 <= i < 16 implies #[trigger] Self::ZERO.pattern()[i] == false by {
            lemma_bits_u16(0, 0, i as u16, 0);
        }
        assert forall|i: int| 0 <= i < 16 implies #[trigger] Self::ONE.pattern()[i] == (i == 0) by {
            lemma_bits_u16(0, 0, i as u16, 0);
        }
        assert forall|i: int| 0 <= i < 16 implies #[trigger] Self::FULL.pattern()[i] == true by {
            lemma_bits_u16(0, 0, i as u16, 0);
        }
        assert forall|i: int| 0 <= i < 16 implies
            #[trigger] Self::TOP.pattern()[i] == (i == 15)
        by {
            lemma_bits_u16(0, 0, i as u16, 0);
        }
        assert(Self::ZERO.pattern() =~= uniform(16, false));
        assert(Self::ONE.pattern() =~= mask_at(16, 0));
        assert(Self::FULL.pattern() =~= uniform(16, true));
        assert(Self::TOP.pattern() =~= mask_at(16, 15));
    }

    proof fn lemma_eq() {
    }

    fn bitand(self, other: Self) -> (r: Self) {
        let r = self & other;
        proof {
            assert forall|i: int| 0 <= i < 16 implies
                #[trigger] r.pattern()[i] == (self.pattern()[i] && other.pattern()[i])
            by {
                lemma_bits_u16(self, other, i as u16, 0);
            }
            assert(r.pattern() =~= and_of(self.pattern(), other.pattern()));
        }
        r
    }

    fn bitor(self, other: Self) -> (r: Self) {
        let r = self | other;
        proof {
            assert forall|i: int| 0 <= i < 16 implies
                #[trigger] r.pattern()[i] == (self.pattern()[i] || other.pattern()[i])
            by {
                lemma_bits_u16(self, other, i as u16, 0);
            }
            assert(r.pattern() =~= or_of(self.pattern(), other.pattern()));
        }
        r
    }

    fn bitxor(self, other: Self) -> (r: Self) {
        let r = self ^ other;
        proof {
            assert forall|i: int| 0 <= i < 16 implies
                #[trigger] r.pattern()[i] == (self.pattern()[i] != other.pattern()[i])
            by {
                lemma_bits_u16(self, other, i as u16, 0);
            }
            assert(r.pattern() =~= xor_of(self.pattern(), other.pattern()));
        }
        r
    }

    fn not(self) -> (r: Self) {
        let r = !self;
        proof {
            assert forall|i: int| 0 <= i < 16 implies
                #[trigger] r.pattern()[i] == !self.pattern()[i]
            by {
                lemma_bits_u16(self, 0, i as u16, 0);
            }
            assert(r.pattern() =~= not_of(self.pattern()));
        }
        r
    }

    fn shl(self, n: u32) -> (r: Self) {
        let r = self << n;
        proof {
            assert forall|i: int| 0 <= i < 16 implies
                #[trigger] r.pattern()[i] == (i >= n && self.pattern()[i - n])
            by {
                lemma_bits_u16(self, 0, i as u16, n as u16);
            }
            assert(r.pattern() =~= shift_up(self.pattern(), n as nat));
        }
        r
    }

    fn shr(self, n: u32) -> (r: Self) {
        let r = self >> n;
        proof {
            assert forall|i: int| 0 <= i < 16 implies
                #[trigger] r.pattern()[i] == (i + n < 16 && self.pattern()[i + n])
            by {
                lemma_bits_u16(self, 0, i as u16, n as u16);
            }
            assert(r.pattern() =~= shift_down(self.pattern(), n as nat));
        }
        r
    }

    fn trailing_zeros(self) -> (r: u32) {
        let r = self.trailing_zeros();
        proof {
            axiom_u16_trailing_zeros(self);
            assert forall|j: int| 0 <= j < r implies self.pattern()[j] == false by {
                assert((self >> (j as u16)) & 1u16 == 0u16);
            }
            lemma_low_run_unique(self.pattern(), false, r as int);
        }
        r
    }

    fn trailing_ones(self) -> (r: u32) {
        let r = self.trailing_ones();
        proof {
            axiom_u16_trailing_ones(self);
            assert forall|j: int| 0 <= j < r implies self.pattern()[j] == true by {
                assert((self >> (j as u16)) & 1u16 == 1u16);
            }
            lemma_low_run_unique(self.pattern(), true, r as int);
        }
        r
    }

    fn leading_zeros(self) -> (r: u32) {
        let r = self.leading_zeros();
        proof {
            axiom_u16_leading_zeros(self);
            assert forall|j: int| 16 - r <= j < 16 implies self.pattern()[j] == false by {
                assert((self >> (j as u16)) & 1u16 == 0u16);
            }
            if r < 16 {
                lemma_bits_u16(self, 0, (15 - r) as u16, 0);
            }
            lemma_high_run_unique(self.pattern(), false, r as int);
        }
        r
    }

    fn leading_ones(self) -> (r: u32) {
        let r = self.leading_ones();
        proof {
            axiom_u16_leading_ones(self);
            assert forall|j: int| 16 - r <= j < 16 implies self.pattern()[j] == true by {
                assert((self >> (j as u16)) & 1u16 == 1u16);
            }
            lemma_high_run_unique(self.pattern(), true, r as int);
        }
        r
    }
}

/// Casting between `i16` and `u16` loses nothing in either direction, and
/// takes the constants of one type to those of the other.
proof fn lemma_cast_i16(x: i16, y: u16)
    by (bit_vector)
    ensures
        (x as u16) as i16 == x,
        (y as i16) as u16 == y,
        0i16 as u16 == 0u16,
        1i16 as u16 == 1u16,
        (-1i16) as u16 == 0xffff,
        i16::MIN as u16 == 0x8000,
{
}

impl Binary for i16 {
    open spec fn width() -> nat {
        16
    }

    open spec fn pattern(self) -> Seq<bool> {
        (self as u16).pattern()
    }

    const ZERO: Self = 0;

    const ONE: Self = 1;

    const FULL: Self = -1;

    const TOP: Self = i16::MIN;

    const MAX_BIT_IDX: u32 = 15;

    proof fn lemma_width(v: Self) {
        u16::lemma_width(v as u16);
        assert(Self::width() == Self::MAX_BIT_IDX + 1);
    }

    proof fn lemma_pattern_injective(a: Self, b: Self) {
        u16::lemma_pattern_injective(a as u16, b as u16);
        lemma_cast_i16(a, 0);
        lemma_cast_i16(b, 0);
    }

    proof fn lemma_constants() {
        u16::lemma_constants();
        lemma_cast_i16(i16::MIN, u16::TOP);
        assert(Self::ZERO.pattern() == u16::ZERO.pattern());
        assert(Self::ONE.pattern() == u16::ONE.pattern());
        assert(Self::FULL.pattern() == u16::FULL.pattern());
        assert(Self::TOP.pattern() == u16::TOP.pattern());
    }

    proof fn lemma_eq() {
    }

    fn bitand(self, other: Self) -> (r: Self) {
        let u = Binary::bitand(
            #[verifier::truncate] (self as u16),
            #[verifier::truncate] (other as u16),
        );
        proof {
            lemma_cast_i16(0, u);
        }
        #[verifier::truncate] (u as i16)
    }

    fn bitor(self, other: Self) -> (r: Self) {
        let u = Binary::bitor(
            #[verifier::truncate] (self as u16),
            #[verifier::truncate] (other as u16),
        );
        proof {
            lemma_cast_i16(0, u);
        }
        #[verifier::truncate] (u as i16)
    }

    fn bitxor(self, other: Self) -> (r: Self) {
        let u = Binary::bitxor(
            #[verifier::truncate] (self as u16),
            #[verifier::truncate] (other as u16),
        );
        proof {
            lemma_cast_i16(0, u);
        }
        #[verifier::truncate] (u as i16)
    }

    fn not(self) -> (r: Self) {
        let u = Binary::not(#[verifier::truncate] (self as u16));
        proof {
            lemma_cast_i16(0, u);
        }
        #[verifier::truncate] (u as i16)
    }

    fn shl(self, n: u32) -> (r: Self) {
        let u = Binary::shl(#[verifier::truncate] (self as u16), n);
        proof {
            lemma_cast_i16(0, u);
        }
        #[verifier::truncate] (u as i16)
    }

    fn shr(self, n: u32) -> (r: Self) {
        let u = Binary::shr(#[verifier::truncate] (self as u16), n);
        proof {
            lemma_cast_i16(0, u);
        }
        #[verifier::truncate] (u as i16)
    }

    fn trailing_zeros(self) -> (r: u32) {
        Binary::trailing_zeros(#[verifier::truncate] (self as u16))
    }

    fn trailing_ones(self) -> (r: u32) {
        Binary::trailing_ones(#[verifier::truncate] (self as u16))
    }

    fn leading_zeros(self) -> (r: u32) {
        Binary::leading_zeros(#[verifier::truncate] (self as u16))
    }

    fn leading_ones(self) -> (r: u32) {
        Binary::leading_ones(#[verifier::truncate] (self as u16))
    }
}

} // verus!
