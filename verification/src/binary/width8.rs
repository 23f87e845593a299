//! `Binary` for the 8-bit integers, `u8` and `i8`.
//!
//! An `i8` has the bit pattern of the `u8` it casts to, and every operation
//! on it is carried out on that `u8`.

use crate::binary::Binary;
use crate::pattern::{
    and_of, lemma_high_run_unique, lemma_low_run_unique, mask_at, not_of, or_of, shift_down,
    shift_up, uniform, xor_of,
};
use vstd::prelude::*;
use vstd::std_specs::bits::{
    axiom_u8_leading_ones, axiom_u8_leading_zeros, axiom_u8_trailing_ones,
    axiom_u8_trailing_zeros, u8_trailing_zeros,
};

verus! {

/// Whether bit `i` of `a` is set.
pub open spec fn bit_u8(a: u8, i: u8) -> bool {
    (a >> i) & 1 == 1
}

/// How each operator on `u8` acts on a single bit: `i` is the position
/// looked at and `n` a shift distance.
proof fn lemma_bits_u8(a: u8, b: u8, i: u8, n: u8)
    by (bit_vector)
    requires
        i < 8,
        n < 8,
    ensures
        bit_u8(a & b, i) == (bit_u8(a, i) && bit_u8(b, i)),
        bit_u8(a | b, i) == (bit_u8(a, i) || bit_u8(b, i)),
        bit_u8(a ^ b, i) == (bit_u8(a, i) != bit_u8(b, i)),
        bit_u8(!a, i) == !bit_u8(a, i),
        bit_u8(a << n, i) == (i >= n && bit_u8(a, (i - n) as u8)),
        bit_u8(a >> n, i) == (i + n < 8 && bit_u8(a, (i + n) as u8)),
        bit_u8(0, i) == false,
        bit_u8(1, i) == (i == 0),
        bit_u8(0xff, i) == true,
        bit_u8(0x80, i) == (i == 7),
        bit_u8(a, i) == ((a >> i) & 1 != 0),
        a ^ b == 0 ==> a == b,
{
}

impl Binary for u8 {
    open spec fn width() -> nat {
        8
    }

    open spec fn pattern(self) -> Seq<bool> {
        Seq::new(8, |i: int| bit_u8(self, i as u8))
    }

    const ZERO: Self = 0;

    const ONE: Self = 1;

    const FULL: Self = 0xff;

    const TOP: Self = 0x80;

    const MAX_BIT_IDX: u32 = 7;

    proof fn lemma_width(v: Self) {
        assert(v.pattern().len() == 8);
        assert(Self::width() == Self::MAX_BIT_IDX + 1);
    }

    proof fn lemma_pattern_injective(a: Self, b: Self) {
        if a != b {
            // The lowest 1-bit of `a ^ b` is a position where `a` and `b` differ.
            let x = a ^ b;
            let k = u8_trailing_zeros(x);
            axiom_u8_trailing_zeros(x);
            lemma_bits_u8(a, b, 0, 0);
            assert(bit_u8(x, k as u8));
            lemma_bits_u8(a, b, k as u8, 0);
            assert(a.pattern()[k as int] == bit_u8(a, k as u8));
            assert(b.pattern()[k as int] == bit_u8(b, k as u8));
        }
    }

    proof fn lemma_constants() {
        assert forall|i: int| 0 <= i < 8 implies #[trigger] Self::ZERO.pattern()[i] == false by {
            lemma_bits_u8(0, 0, i as u8, 0);
        }
        assert forall|i: int| 0 <= i < 8 implies #[trigger] Self::ONE.pattern()[i] == (i == 0) by {
            lemma_bits_u8(0, 0, i as u8, 0);
        }
        assert forall|i: int| 0 <= i < 8 implies #[trigger] Self::FULL.pattern()[i] == true by {
            lemma_bits_u8(0, 0, i as u8, 0);
        }
        assert forall|i: int| 0 <= i < 8 implies #[trigger] Self::TOP.pattern()[i] == (i == 7) by {
            lemma_bits_u8(0, 0, i as u8, 0);
        }
        assert(Self::ZERO.pattern() =~= uniform(8, false));
        assert(Self::ONE.pattern() =~= mask_at(8, 0));
        assert(Self::FULL.pattern() =~= uniform(8, true));
        assert(Self::TOP.pattern() =~= mask_at(8, 7));
    }

    proof fn lemma_eq() {
    }

    fn bitand(self, other: Self) -> (r: Self) {
        let r = self & other;
        proof {
            assert forall|i: int| 0 <= i < 8 implies
                #[trigger] r.pattern()[i] == (self.pattern()[i] && other.pattern()[i])
            by {
                lemma_bits_u8(self, other, i as u8, 0);
            }
            assert(r.pattern() =~= and_of(self.pattern(), other.pattern()));
        }
        r
    }

    fn bitor(self, other: Self) -> (r: Self) {
        let r = self | other;
        proof {
            assert forall|i: int| 0 <= i < 8 implies
                #[trigger] r.pattern()[i] == (self.pattern()[i] || other.pattern()[i])
            by {
                lemma_bits_u8(self, other, i as u8, 0);
            }
            assert(r.pattern() =~= or_of(self.pattern(), other.pattern()));
        }
        r
    }

    fn bitxor(self, other: Self) -> (r: Self) {
        let r = self ^ other;
        proof {
            assert forall|i: int| 0 <= i < 8 implies
                #[trigger] r.pattern()[i] == (self.pattern()[i] != other.pattern()[i])
            by {
                lemma_bits_u8(self, other, i as u8, 0);
            }
            assert(r.pattern() =~= xor_of(self.pattern(), other.pattern()));
        }
        r
    }

    fn not(self) -> (r: Self) {
        let r = !self;
        proof {
            assert forall|i: int| 0 <= i < 8 implies
                #[trigger] r.pattern()[i] == !self.pattern()[i]
            by {
                lemma_bits_u8(self, 0, i as u8, 0);
            }
            assert(r.pattern() =~= not_of(self.pattern()));
        }
        r
    }

    fn shl(self, n: u32) -> (r: Self) {
        let r = self << n;
        proof {
            assert forall|i: int| 0 <= i < 8 implies
                #[trigger] r.pattern()[i] == (i >= n && self.pattern()[i - n])
            by {
                lemma_bits_u8(self, 0, i as u8, n as u8);
            }
            assert(r.pattern() =~= shift_up(self.pattern(), n as nat));
        }
        r
    }

    fn shr(self, n: u32) -> (r: Self) {
        let r = self >> n;
        proof {
            assert forall|i: int| 0 <= i < 8 implies
                #[trigger] r.pattern()[i] == (i + n < 8 && self.pattern()[i + n])
            by {
                lemma_bits_u8(self, 0, i as u8, n as u8);
            }
            assert(r.pattern() =~= shift_down(self.pattern(), n as nat));
        }
        r
    }

    fn trailing_zeros(self) -> (r: u32) {
        let r = self.trailing_zeros();
        proof {
            axiom_u8_trailing_zeros(self);
            assert forall|j: int| 0 <= j < r implies self.pattern()[j] == false by {
                assert((self >> (j as u8)) & 1u8 == 0u8);
            }
            lemma_low_run_unique(self.pattern(), false, r as int);
        }
        r
    }

    fn trailing_ones(self) -> (r: u32) {
        let r = self.trailing_ones();
        proof {
            axiom_u8_trailing_ones(self);
            assert forall|j: int| 0 <= j < r implies self.pattern()[j] == true by {
                assert((self >> (j as u8)) & 1u8 == 1u8);
            }
            lemma_low_run_unique(self.pattern(), true, r as int);
        }
        r
    }

    fn leading_zeros(self) -> (r: u32) {
        let r = self.leading_zeros();
        proof {
            axiom_u8_leading_zeros(self);
            assert forall|j: int| 8 - r <= j < 8 implies self.pattern()[j] == false by {
                assert((self >> (j as u8)) & 1u8 == 0u8);
            }
            if r < 8 {
                lemma_bits_u8(self, 0, (7 - r) as u8, 0);
            }
            lemma_high_run_unique(self.pattern(), false, r as int);
        }
        r
    }

    fn leading_ones(self) -> (r: u32) {
        let r = self.leading_ones();
        proof {
            axiom_u8_leading_ones(self);
            assert forall|j: int| 8 - r <= j < 8 implies self.pattern()[j] == true by {
                assert((self >> (j as u8)) & 1u8 == 1u8);
            }
            lemma_high_run_unique(self.pattern(), true, r as int);
        }
        r
    }
}

/// Casting between `i8` and `u8` loses nothing in either direction, and
/// takes the constants of one type to those of the other.
proof fn lemma_cast_i8(x: i8, y: u8)
    by (bit_vector)
    ensures
        (x as u8) as i8 == x,
        (y as i8) as u8 == y,
        0i8 as u8 == 0u8,
        1i8 as u8 == 1u8,
        (-1i8) as u8 == 0xff,
        i8::MIN as u8 == 0x80,
{
}

impl Binary for i8 {
    open spec fn width() -> nat {
        8
    }

    open spec fn pattern(self) -> Seq<bool> {
        (self as u8).pattern()
    }

    const ZERO: Self = 0;

    const ONE: Self = 1;

    const FULL: Self = -1;

    const TOP: Self = i8::MIN;

    const MAX_BIT_IDX: u32 = 7;

    proof fn lemma_width(v: Self) {
        u8::lemma_width(v as u8);
        assert(Self::width() == Self::MAX_BIT_IDX + 1);
    }

    proof fn lemma_pattern_injective(a: Self, b: Self) {
        u8::lemma_pattern_injective(a as u8, b as u8);
        lemma_cast_i8(a, 0);
        lemma_cast_i8(b, 0);
    }

    proof fn lemma_constants() {
        u8::lemma_constants();
        lemma_cast_i8(i8::MIN, u8::TOP);
        assert(Self::ZERO.pattern() == u8::ZERO.pattern());
        assert(Self::ONE.pattern() == u8::ONE.pattern());
        assert(Self::FULL.pattern() == u8::FULL.pattern());
        assert(Self::TOP.pattern() == u8::TOP.pattern());
    }

    proof fn lemma_eq() {
    }

    fn bitand(self, other: Self) -> (r: Self) {
        let u = Binary::bitand(
            #[verifier::truncate] (self as u8),
            #[verifier::truncate] (other as u8),
        );
        proof {
            lemma_cast_i8(0, u);
        }
        #[verifier::truncate] (u as i8)
    }

    fn bitor(self, other: Self) -> (r: Self) {
        let u = Binary::bitor(
            #[verifier::truncate] (self as u8),
            #[verifier::truncate] (other as u8),
        );
        proof {
            lemma_cast_i8(0, u);
        }
        #[verifier::truncate] (u as i8)
    }

    fn bitxor(self, other: Self) -> (r: Self) {
        let u = Binary::bitxor(
            #[verifier::truncate] (self as u8),
            #[verifier::truncate] (other as u8),
        );
        proof {
            lemma_cast_i8(0, u);
        }
        #[verifier::truncate] (u as i8)
    }

    fn not(self) -> (r: Self) {
        let u = Binary::not(#[verifier::truncate] (self as u8));
        proof {
            lemma_cast_i8(0, u);
        }
        #[verifier::truncate] (u as i8)
    }

    fn shl(self, n: u32) -> (r: Self) {
        let u = Binary::shl(#[verifier::truncate] (self as u8), n);
        proof {
            lemma_cast_i8(0, u);
        }
        #[verifier::truncate] (u as i8)
    }

    fn shr(self, n: u32) -> (r: Self) {
        let u = Binary::shr(#[verifier::truncate] (self as u8), n);
        proof {
            lemma_cast_i8(0, u);
        }
        #[verifier::truncate] (u as i8)
    }

    fn trailing_zeros(self) -> (r: u32) {
        Binary::trailing_zeros(#[verifier::truncate] (self as u8))
    }

    fn trailing_ones(self) -> (r: u32) {
        Binary::trailing_ones(#[verifier::truncate] (self as u8))
    }

    fn leading_zeros(self) -> (r: u32) {
        Binary::leading_zeros(#[verifier::truncate] (self as u8))
    }

    fn leading_ones(self) -> (r: u32) {
        Binary::leading_ones(#[verifier::truncate] (self as u8))
    }
}

} // verus!
