//! `Binary` for the 64-bit integers, `u64` and `i64`.
//!
//! An `i64` has the bit pattern of the `u64` it casts to, and every operation
//! on it is carried out on that `u64`.

use crate::binary::Binary;
use crate::pattern::{
    and_of, lemma_high_run_unique, lemma_low_run_unique, mask_at, not_of, or_of, shift_down,
    shift_up, uniform, xor_of,
};
use vstd::prelude::*;
use vstd::std_specs::bits::{
    axiom_u64_leading_ones, axiom_u64_leading_zeros, axiom_u64_trailing_ones,
    axiom_u64_trailing_zeros, u64_trailing_zeros,
};

verus! {

/// Whether bit `i` of `a` is set.
pub open spec fn bit_u64(a: u64, i: u64) -> bool {
    (a >> i) & 1 == 1
}

/// How each operator on `u64` acts on a single bit: `i` is the position
/// looked at and `n` a shift distance.
proof fn lemma_bits_u64(a: u64, b: u64, i: u64, n: u64)
    by (bit_vector)
    requires
        i < 64,
        n < 64,
    ensures
        bit_u64(a & b, i) == (bit_u64(a, i) && bit_u64(b, i)),
        bit_u64(a | b, i) == (bit_u64(a, i) || bit_u64(b, i)),
        bit_u64(a ^ b, i) == (bit_u64(a, i) != bit_u64(b, i)),
        bit_u64(!a, i) == !bit_u64(a, i),
        bit_u64(a << n, i) == (i >= n && bit_u64(a, (i - n) as u64)),
        bit_u64(a >> n, i) == (i + n < 64 && bit_u64(a, (i + n) as u64)),
        bit_u64(0, i) == false,
        bit_u64(1, i) == (i == 0),
        bit_u64(0xffff_ffff_ffff_ffff, i) == true,
        bit_u64(0x8000_0000_0000_0000, i) == (i == 63),
        bit_u64(a, i) == ((a >> i) & 1 != 0),
        a ^ b == 0 ==> a == b,
{
}

impl Binary for u64 {
    open spec fn width() -> nat {
        64
    }

    open spec fn pattern(self) -> Seq<bool> {
        Seq::new(64, |i: int| bit_u64(self, i as u64))
    }

    const ZERO: Self = 0;

    const ONE: Self = 1;

    const FULL: Self = 0xffff_ffff_ffff_ffff;

    const TOP: Self = 0x8000_0000_0000_0000;

    const MAX_BIT_IDX: u32 = 63;

    proof fn lemma_width(v: Self) {
        assert(v.pattern().len() == 64);
        assert(Self::width() == Self::MAX_BIT_IDX + 1);
    }

    proof fn lemma_pattern_injective(a: Self, b: Self) {
        if a != b {
            // The lowest 1-bit of `a ^ b` is a position where `a` and `b` differ.
            let x = a ^ b;
            let k = u64_trailing_zeros(x);
            axiom_u64_trailing_zeros(x);
            lemma_bits_u64(a, b, 0, 0);
            assert(bit_u64(x, k as u64));
            lemma_bits_u64(a, b, k as u64, 0);
            assert(a.pattern()[k as int] == bit_u64(a, k as u64));
            assert(b.pattern()[k as int] == bit_u64(b, k as u64));
        }
    }

    proof fn lemma_constants() {
        assert forall|i: int| 0 <= i < 64 implies #[trigger] Self::ZERO.pattern()[i] == false by {
            lemma_bits_u64(0, 0, i as u64, 0);
        }
        assert forall|i: int| 0 <= i < 64 implies #[trigger] Self::ONE.pattern()[i] == (i == 0) by {
            lemma_bits_u64(0, 0, i as u64, 0);
        }
        assert forall|i: int| 0 <= i < 64 implies #[trigger] Self::FULL.pattern()[i] == true by {
            lemma_bits_u64(0, 0, i as u64, 0);
        }
        assert forall|i: int| 0 <= i < 64 implies
            #[trigger] Self::TOP.pattern()[i] == (i == 63)
        by {
            lemma_bits_u64(0, 0, i as u64, 0);
        }
        assert(Self::ZERO.pattern() =~= uniform(64, false));
        assert(Self::ONE.pattern() =~= mask_at(64, 0));
        assert(Self::FULL.pattern() =~= uniform(64, true));
        assert(Self::TOP.pattern() =~= mask_at(64, 63));
    }

    proof fn lemma_eq() {
    }

    fn bitand(self, other: Self) -> (r: Self) {
        let r = self & other;
        proof {
            assert forall|i: int| 0 <= i < 64 implies
                #[trigger] r.pattern()[i] == (self.pattern()[i] && other.pattern()[i])
            by {
                lemma_bits_u64(self, other, i as u64, 0);
            }
            assert(r.pattern() =~= and_of(self.pattern(), other.pattern()));
        }
        r
    }

    fn bitor(self, other: Self) -> (r: Self) {
        let r = self | other;
        proof {
            assert forall|i: int| 0 <= i < 64 implies
                #[trigger] r.pattern()[i] == (self.pattern()[i] || other.pattern()[i])
            by {
                lemma_bits_u64(self, other, i as u64, 0);
            }
            assert(r.pattern() =~= or_of(self.pattern(), other.pattern()));
        }
        r
    }

    fn bitxor(self, other: Self) -> (r: Self) {
        let r = self ^ other;
        proof {
            assert forall|i: int| 0 <= i < 64 implies
                #[trigger] r.pattern()[i] == (self.pattern()[i] != other.pattern()[i])
            by {
                lemma_bits_u64(self, other, i as u64, 0);
            }
            assert(r.pattern() =~= xor_of(self.pattern(), other.pattern()));
        }
        r
    }

    fn not(self) -> (r: Self) {
        let r = !self;
        proof {
            assert forall|i: int| 0 <= i < 64 implies
                #[trigger] r.pattern()[i] == !self.pattern()[i]
            by {
                lemma_bits_u64(self, 0, i as u64, 0);
            }
            assert(r.pattern() =~= not_of(self.pattern()));
        }
        r
    }

    fn shl(self, n: u32) -> (r: Self) {
        let r = self << n;
        proof {
            assert forall|i: int| 0 <= i < 64 implies
                #[trigger] r.pattern()[i] == (i >= n && self.pattern()[i - n])
            by {
                lemma_bits_u64(self, 0, i as u64, n as u64);
            }
            assert(r.pattern() =~= shift_up(self.pattern(), n as nat));
        }
        r
    }

    fn shr(self, n: u32) -> (r: Self) {
        let r = self >> n;
        proof {
            assert forall|i: int| 0 <= i < 64 implies
                #[trigger] r.pattern()[i] == (i + n < 64 && self.pattern()[i + n])
            by {
                lemma_bits_u64(self, 0, i as u64, n as u64);
            }
            assert(r.pattern() =~= shift_down(self.pattern(), n as nat));
        }
        r
    }

    fn trailing_zeros(self) -> (r: u32) {
        let r = self.trailing_zeros();
        proof {
            axiom_u64_trailing_zeros(self);
            assert forall|j: int| 0 <= j < r implies self.pattern()[j] == false by {
                assert((self >> (j as u64)) & 1u64 == 0u64);
            }
            lemma_low_run_unique(self.pattern(), false, r as int);
        }
        r
    }

    fn trailing_ones(self) -> (r: u32) {
        let r = self.trailing_ones();
        proof {
            axiom_u64_trailing_ones(self);
            assert forall|j: int| 0 <= j < r implies self.pattern()[j] == true by {
                assert((self >> (j as u64)) & 1u64 == 1u64);
            }
            lemma_low_run_unique(self.pattern(), true, r as int);
        }
        r
    }

    fn leading_zeros(self) -> (r: u32) {
        let r = self.leading_zeros();
        proof {
            axiom_u64_leading_zeros(self);
            assert forall|j: int| 64 - r <= j < 64 implies self.pattern()[j] == false by {
                assert((self >> (j as u64)) & 1u64 == 0u64);
            }
            if r < 64 {
                lemma_bits_u64(self, 0, (63 - r) as u64, 0);
            }
            lemma_high_run_unique(self.pattern(), false, r as int);
        }
        r
    }

    fn leading_ones(self) -> (r: u32) {
        let r = self.leading_ones();
        proof {
            axiom_u64_leading_ones(self);
            assert forall|j: int| 64 - r <= j < 64 implies self.pattern()[j] == true by {
                assert((self >> (j as u64)) & 1u64 == 1u64);
            }
            lemma_high_run_unique(self.pattern(), true, r as int);
        }
        r
    }
}

/// Casting between `i64` and `u64` loses nothing in either direction, and
/// takes the constants of one type to those of the other.
proof fn lemma_cast_i64(x: i64, y: u64)
    by (bit_vector)
    ensures
        (x as u64) as i64 == x,
        (y as i64) as u64 == y,
        0i64 as u64 == 0u64,
        1i64 as u64 == 1u64,
        (-1i64) as u64 == 0xffff_ffff_ffff_ffff,
        i64::MIN as u64 == 0x8000_0000_0000_0000,
{
}

impl Binary for i64 {
    open spec fn width() -> nat {
        64
    }

    open spec fn pattern(self) -> Seq<bool> {
        (self as u64).pattern()
    }

    const ZERO: Self = 0;

    const ONE: Self = 1;

    const FULL: Self = -1;

    const TOP: Self = i64::MIN;

    const MAX_BIT_IDX: u32 = 63;

    proof fn lemma_width(v: Self) {
        u64::lemma_width(v as u64);
        assert(Self::width() == Self::MAX_BIT_IDX + 1);
    }

    proof fn lemma_pattern_injective(a: Self, b: Self) {
        u64::lemma_pattern_injective(a as u64, b as u64);
        lemma_cast_i64(a, 0);
        lemma_cast_i64(b, 0);
    }

    proof fn lemma_constants() {
        u64::lemma_constants();
        lemma_cast_i64(i64::MIN, u64::TOP);
        assert(Self::ZERO.pattern() == u64::ZERO.pattern());
        assert(Self::ONE.pattern() == u64::ONE.pattern());
        assert(Self::FULL.pattern() == u64::FULL.pattern());
        assert(Self::TOP.pattern() == u64::TOP.pattern());
    }

    proof fn lemma_eq() {
    }

    fn bitand(self, other: Self) -> (r: Self) {
        let u = Binary::bitand(
            #[verifier::truncate] (self as u64),
            #[verifier::truncate] (other as u64),
        );
        proof {
            lemma_cast_i64(0, u);
        }
        #[verifier::truncate] (u as i64)
    }

    fn bitor(self, other: Self) -> (r: Self) {
        let u = Binary::bitor(
            #[verifier::truncate] (self as u64),
            #[verifier::truncate] (other as u64),
        );
        proof {
            lemma_cast_i64(0, u);
        }
        #[verifier::truncate] (u as i64)
    }

    fn bitxor(self, other: Self) -> (r: Self) {
        let u = Binary::bitxor(
            #[verifier::truncate] (self as u64),
            #[verifier::truncate] (other as u64),
        );
        proof {
            lemma_cast_i64(0, u);
        }
        #[verifier::truncate] (u as i64)
    }

    fn not(self) -> (r: Self) {
        let u = Binary::not(#[verifier::truncate] (self as u64));
        proof {
            lemma_cast_i64(0, u);
        }
        #[verifier::truncate] (u as i64)
    }

    fn shl(self, n: u32) -> (r: Self) {
        let u = Binary::shl(#[verifier::truncate] (self as u64), n);
        proof {
            lemma_cast_i64(0, u);
        }
        #[verifier::truncate] (u as i64)
    }

    fn shr(self, n: u32) -> (r: Self) {
        let u = Binary::shr(#[verifier::truncate] (self as u64), n);
        proof {
            lemma_cast_i64(0, u);
        }
        #[verifier::truncate] (u as i64)
    }

    fn trailing_zeros(self) -> (r: u32) {
        Binary::trailing_zeros(#[verifier::truncate] (self as u64))
    }

    fn trailing_ones(self) -> (r: u32) {
        Binary::trailing_ones(#[verifier::truncate] (self as u64))
    }

    fn leading_zeros(self) -> (r: u32) {
        Binary::leading_zeros(#[verifier::truncate] (self as u64))
    }

    fn leading_ones(self) -> (r: u32) {
        Binary::leading_ones(#[verifier::truncate] (self as u64))
    }
}

} // verus!
