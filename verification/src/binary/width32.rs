//! `Binary` for the 32-bit integers, `u32` and `i32`.
//!
//! An `i32` has the bit pattern of the `u32` it casts to, and every operation
//! on it is carried out on that `u32`.

use crate::binary::Binary;
use crate::pattern::{
    and_of, lemma_high_run_unique, lemma_low_run_unique, mask_at, not_of, or_of, shift_down,
    shift_up, uniform, xor_of,
};
use vstd::prelude::*;
use vstd::std_specs::bits::{
    axiom_u32_leading_ones, axiom_u32_leading_zeros, axiom_u32_trailing_ones,
    axiom_u32_trailing_zeros, u32_trailing_zeros,
};

verus! {

/// Whether bit `i` of `a` is set.
pub open spec fn bit_u32(a: u32, i: u32) -> bool {
    (a >> i) & 1 == 1
}

/// How each operator on `u32` acts on a single bit: `i` is the position
/// looked at and `n` a shift distance.
proof fn lemma_bits_u32(a: u32, b: u32, i: u32, n: u32)
    by (bit_vector)
    requires
        i < 32,
        n < 32,
    ensures
        bit_u32(a & b, i) == (bit_u32(a, i) && bit_u32(b, i)),
        bit_u32(a | b, i) == (bit_u32(a, i) || bit_u32(b, i)),
        bit_u32(a ^ b, i) == (bit_u32(a, i) != bit_u32(b, i)),
        bit_u32(!a, i) == !bit_u32(a, i),
        bit_u32(a << n, i) == (i >= n && bit_u32(a, (i - n) as u32)),
        bit_u32(a >> n, i) == (i + n < 32 && bit_u32(a, (i + n) as u32)),
        bit_u32(0, i) == false,
        bit_u32(1, i) == (i == 0),
        bit_u32(0xffff_ffff, i) == true,
        bit_u32(0x8000_0000, i) == (i == 31),
        bit_u32(a, i) == ((a >> i) & 1 != 0),
        a ^ b == 0 ==> a == b,
{
}

impl Binary for u32 {
    open spec fn width() -> nat {
        32
    }

    open spec fn pattern(self) -> Seq<bool> {
        Seq::new(32, |i: int| bit_u32(self, i as u32))
    }

    const ZERO: Self = 0;

    const ONE: Self = 1;

    const FULL: Self = 0xffff_ffff;

    const TOP: Self = 0x8000_0000;

    const MAX_BIT_IDX: u32 = 31;

    proof fn lemma_width(v: Self) {
        assert(v.pattern().len() == 32);
        assert(Self::width() == Self::MAX_BIT_IDX + 1);
    }

    proof fn lemma_pattern_injective(a: Self, b: Self) {
        if a != b {
            // The lowest 1-bit of `a ^ b` is a position where `a` and `b` differ.
            let x = a ^ b;
            let k = u32_trailing_zeros(x);
            axiom_u32_trailing_zeros(x);
            lemma_bits_u32(a, b, 0, 0);
            assert(bit_u32(x, k as u32));
            lemma_bits_u32(a, b, k as u32, 0);
            assert(a.pattern()[k as int] == bit_u32(a, k as u32));
            assert(b.pattern()[k as int] == bit_u32(b, k as u32));
        }
    }

    proof fn lemma_constants() {
        assert forall|i: int| 0 <= i < 32 implies #[trigger] Self::ZERO.pattern()[i] == false by {
            lemma_bits_u32(0, 0, i as u32, 0);
        }
        assert forall|i: int| 0 <= i < 32 implies #[trigger] Self::ONE.pattern()[i] == (i == 0) by {
            lemma_bits_u32(0, 0, i as u32, 0);
        }
        assert forall|i: int| 0 <= i < 32 implies #[trigger] Self::FULL.pattern()[i] == true by {
            lemma_bits_u32(0, 0, i as u32, 0);
        }
        assert forall|i: int| 0 <= i < 32 implies
            #[trigger] Self::TOP.pattern()[i] == (i == 31)
        by {
            lemma_bits_u32(0, 0, i as u32, 0);
        }
        assert(Self::ZERO.pattern() =~= uniform(32, false));
        assert(Self::ONE.pattern() =~= mask_at(32, 0));
        assert(Self::FULL.pattern() =~= uniform(32, true));
        assert(Self::TOP.pattern() =~= mask_at(32, 31));
    }

    proof fn lemma_eq() {
    }

    fn bitand(self, other: Self) -> (r: Self) {
        let r = self & other;
        proof {
            assert forall|i: int| 0 <= i < 32 implies
                #[trigger] r.pattern()[i] == (self.pattern()[i] && other.pattern()[i])
            by {
                lemma_bits_u32(self, other, i as u32, 0);
            }
            assert(r.pattern() =~= and_of(self.pattern(), other.pattern()));
        }
        r
    }

    fn bitor(self, other: Self) -> (r: Self) {
        let r = self | other;
        proof {
            assert forall|i: int| 0 <= i < 32 implies
                #[trigger] r.pattern()[i] == (self.pattern()[i] || other.pattern()[i])
            by {
                lemma_bits_u32(self, other, i as u32, 0);
            }
            assert(r.pattern() =~= or_of(self.pattern(), other.pattern()));
        }
        r
    }

    fn bitxor(self, other: Self) -> (r: Self) {
        let r = self ^ other;
        proof {
            assert forall|i: int| 0 <= i < 32 implies
                #[trigger] r.pattern()[i] == (self.pattern()[i] != other.pattern()[i])
            by {
                lemma_bits_u32(self, other, i as u32, 0);
            }
            assert(r.pattern() =~= xor_of(self.pattern(), other.pattern()));
        }
        r
    }

    fn not(self) -> (r: Self) {
        let r = !self;
        proof {
            assert forall|i: int| 0 <= i < 32 implies
                #[trigger] r.pattern()[i] == !self.pattern()[i]
            by {
                lemma_bits_u32(self, 0, i as u32, 0);
            }
            assert(r.pattern() =~= not_of(self.pattern()));
        }
        r
    }

    fn shl(self, n: u32) -> (r: Self) {
        let r = self << n;
        proof {
            assert forall|i: int| 0 <= i < 32 implies
                #[trigger] r.pattern()[i] == (i >= n && self.pattern()[i - n])
            by {
                lemma_bits_u32(self, 0, i as u32, n as u32);
            }
            assert(r.pattern() =~= shift_up(self.pattern(), n as nat));
        }
        r
    }

    fn shr(self, n: u32) -> (r: Self) {
        let r = self >> n;
        proof {
            assert forall|i: int| 0 <= i < 32 implies
                #[trigger] r.pattern()[i] == (i + n < 32 && self.pattern()[i + n])
            by {
                lemma_bits_u32(self, 0, i as u32, n as u32);
            }
            assert(r.pattern() =~= shift_down(self.pattern(), n as nat));
        }
        r
    }

    fn trailing_zeros(self) -> (r: u32) {
        let r = self.trailing_zeros();
        proof {
            axiom_u32_trailing_zeros(self);
            assert forall|j: int| 0 <= j < r implies self.pattern()[j] == false by {
                assert((self >> (j as u32)) & 1u32 == 0u32);
            }
            lemma_low_run_unique(self.pattern(), false, r as int);
        }
        r
    }

    fn trailing_ones(self) -> (r: u32) {
        let r = self.trailing_ones();
        proof {
            axiom_u32_trailing_ones(self);
            assert forall|j: int| 0 <= j < r implies self.pattern()[j] == true by {
                assert((self >> (j as u32)) & 1u32 == 1u32);
            }
            lemma_low_run_unique(self.pattern(), true, r as int);
        }
        r
    }

    fn leading_zeros(self) -> (r: u32) {
        let r = self.leading_zeros();
        proof {
            axiom_u32_leading_zeros(self);
            assert forall|j: int| 32 - r <= j < 32 implies self.pattern()[j] == false by {
                assert((self >> (j as u32)) & 1u32 == 0u32);
            }
            if r < 32 {
                lemma_bits_u32(self, 0, (31 - r) as u32, 0);
            }
            lemma_high_run_unique(self.pattern(), false, r as int);
        }
        r
    }

    fn leading_ones(self) -> (r: u32) {
        let r = self.leading_ones();
        proof {
            axiom_u32_leading_ones(self);
            assert forall|j: int| 32 - r <= j < 32 implies self.pattern()[j] == true by {
                assert((self >> (j as u32)) & 1u32 == 1u32);
            }
            lemma_high_run_unique(self.pattern(), true, r as int);
        }
        r
    }
}

/// Casting between `i32` and `u32` loses nothing in either direction, and
/// takes the constants of one type to those of the other.
proof fn lemma_cast_i32(x: i32, y: u32)
    by (bit_vector)
    ensures
        (x as u32) as i32 == x,
        (y as i32) as u32 == y,
        0i32 as u32 == 0u32,
        1i32 as u32 == 1u32,
        (-1i32) as u32 == 0xffff_ffff,
        i32::MIN as u32 == 0x8000_0000,
{
}

impl Binary for i32 {
    open spec fn width() -> nat {
        32
    }

    open spec fn pattern(self) -> Seq<bool> {
        (self as u32).pattern()
    }

    const ZERO: Self = 0;

    const ONE: Self = 1;

    const FULL: Self = -1;

    const TOP: Self = i32::MIN;

    const MAX_BIT_IDX: u32 = 31;

    proof fn lemma_width(v: Self) {
        u32::lemma_width(v as u32);
        assert(Self::width() == Self::MAX_BIT_IDX + 1);
    }

    proof fn lemma_pattern_injective(a: Self, b: Self) {
        u32::lemma_pattern_injective(a as u32, b as u32);
        lemma_cast_i32(a, 0);
        lemma_cast_i32(b, 0);
    }

    proof fn lemma_constants() {
        u32::lemma_constants();
        lemma_cast_i32(i32::MIN, u32::TOP);
        assert(Self::ZERO.pattern() == u32::ZERO.pattern());
        assert(Self::ONE.pattern() == u32::ONE.pattern());
        assert(Self::FULL.pattern() == u32::FULL.pattern());
        assert(Self::TOP.pattern() == u32::TOP.pattern());
    }

    proof fn lemma_eq() {
    }

    fn bitand(self, other: Self) -> (r: Self) {
        let u = Binary::bitand(
            #[verifier::truncate] (self as u32),
            #[verifier::truncate] (other as u32),
        );
        proof {
            lemma_cast_i32(0, u);
        }
        #[verifier::truncate] (u as i32)
    }

    fn bitor(self, other: Self) -> (r: Self) {
        let u = Binary::bitor(
            #[verifier::truncate] (self as u32),
            #[verifier::truncate] (other as u32),
        );
        proof {
            lemma_cast_i32(0, u);
        }
        #[verifier::truncate] (u as i32)
    }

    fn bitxor(self, other: Self) -> (r: Self) {
        let u = Binary::bitxor(
            #[verifier::truncate] (self as u32),
            #[verifier::truncate] (other as u32),
        );
        proof {
            lemma_cast_i32(0, u);
        }
        #[verifier::truncate] (u as i32)
    }

    fn not(self) -> (r: Self) {
        let u = Binary::not(#[verifier::truncate] (self as u32));
        proof {
            lemma_cast_i32(0, u);
        }
        #[verifier::truncate] (u as i32)
    }

    fn shl(self, n: u32) -> (r: Self) {
        let u = Binary::shl(#[verifier::truncate] (self as u32), n);
        proof {
            lemma_cast_i32(0, u);
        }
        #[verifier::truncate] (u as i32)
    }

    fn shr(self, n: u32) -> (r: Self) {
        let u = Binary::shr(#[verifier::truncate] (self as u32), n);
        proof {
            lemma_cast_i32(0, u);
        }
        #[verifier::truncate] (u as i32)
    }

    fn trailing_zeros(self) -> (r: u32) {
        Binary::trailing_zeros(#[verifier::truncate] (self as u32))
    }

    fn trailing_ones(self) -> (r: u32) {
        Binary::trailing_ones(#[verifier::truncate] (self as u32))
    }

    fn leading_zeros(self) -> (r: u32) {
        Binary::leading_zeros(#[verifier::truncate] (self as u32))
    }

    fn leading_ones(self) -> (r: u32) {
        Binary::leading_ones(#[verifier::truncate] (self as u32))
    }
}

} // verus!
