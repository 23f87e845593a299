//! `Binary` for the 128-bit integers, `u128` and `i128`.
//!
//! The bit scans work on the two 64-bit halves of the value, each of which is
//! scanned as a `u64`. An `i128` has the bit pattern of the `u128` it casts
//! to, and every operation on it is carried out on that `u128`.

use crate::binary::width64::bit_u64;
use crate::binary::Binary;
use crate::pattern::{
    and_of, lemma_high_run, lemma_high_run_unique, lemma_low_run, lemma_low_run_unique, mask_at,
    not_of, or_of, shift_down, shift_up, uniform, xor_of,
};
use vstd::prelude::*;

verus! {

/// Whether bit `i` of `a` is set.
pub open spec fn bit_u128(a: u128, i: u128) -> bool {
    (a >> i) & 1 == 1
}

/// The low 64 bits of `a`.
pub open spec fn low_half(a: u128) -> u64 {
    a as u64
}

/// The high 64 bits of `a`.
pub open spec fn high_half(a: u128) -> u64 {
    (a >> 64) as u64
}

/// How each operator on `u128` acts on a single bit: `i` is the position
/// looked at and `n` a shift distance.
proof fn lemma_bits_u128(a: u128, b: u128, i: u128, n: u128)
    by (bit_vector)
    requires
        i < 128,
        n < 128,
    ensures
        bit_u128(a & b, i) == (bit_u128(a, i) && bit_u128(b, i)),
        bit_u128(a | b, i) == (bit_u128(a, i) || bit_u128(b, i)),
        bit_u128(a ^ b, i) == (bit_u128(a, i) != bit_u128(b, i)),
        bit_u128(!a, i) == !bit_u128(a, i),
        bit_u128(a << n, i) == (i >= n && bit_u128(a, (i - n) as u128)),
        bit_u128(a >> n, i) == (i + n < 128 && bit_u128(a, (i + n) as u128)),
        bit_u128(0, i) == false,
        bit_u128(1, i) == (i == 0),
        bit_u128(0xffff_ffff_ffff_ffff_ffff_ffff_ffff_ffff, i) == true,
        bit_u128(0x8000_0000_0000_0000_0000_0000_0000_0000, i) == (i == 127),
{
}

/// A `u128` is made of its two halves, bit for bit.
proof fn lemma_halves_u128(a: u128, b: u128, i: u64)
    by (bit_vector)
    requires
        i < 64,
    ensures
        bit_u128(a, i as u128) == bit_u64(low_half(a), i),
        bit_u128(a, (i + 64) as u128) == bit_u64(high_half(a), i),
        low_half(a) == low_half(b) && high_half(a) == high_half(b) ==> a == b,
{
}

/// The pattern of a `u128` is the pattern of its low half followed by that of
/// its high half.
proof fn lemma_pattern_u128(a: u128)
    ensures
        a.pattern() == low_half(a).pattern() + high_half(a).pattern(),
{
    let s = low_half(a).pattern() + high_half(a).pattern();
    assert forall|j: int| 0 <= j < 128 implies a.pattern()[j] == s[j] by {
        if j < 64 {
            lemma_halves_u128(a, a, j as u64);
        } else {
            lemma_halves_u128(a, a, (j - 64) as u64);
            assert(s[j] == high_half(a).pattern()[j - 64]);
        }
    }
    assert(a.pattern() =~= s);
}

impl Binary for u128 {
    open spec fn width() -> nat {
        128
    }

    open spec fn pattern(self) -> Seq<bool> {
        Seq::new(128, |i: int| bit_u128(self, i as u128))
    }

    const ZERO: Self = 0;

    const ONE: Self = 1;

    const FULL: Self = 0xffff_ffff_ffff_ffff_ffff_ffff_ffff_ffff;

    const TOP: Self = 0x8000_0000_0000_0000_0000_0000_0000_0000;

    const MAX_BIT_IDX: u32 = 127;

    proof fn lemma_width(v: Self) {
        assert(v.pattern().len() == 128);
        assert(Self::width() == Self::MAX_BIT_IDX + 1);
    }

    proof fn lemma_pattern_injective(a: Self, b: Self) {
        lemma_pattern_u128(a);
        lemma_pattern_u128(b);
        let (al, ah, bl, bh) = (low_half(a), high_half(a), low_half(b), high_half(b));
        assert(al.pattern() =~= a.pattern().subrange(0, 64));
        assert(bl.pattern() =~= b.pattern().subrange(0, 64));
        assert(ah.pattern() =~= a.pattern().subrange(64, 128));
        assert(bh.pattern() =~= b.pattern().subrange(64, 128));
        u64::lemma_pattern_injective(al, bl);
        u64::lemma_pattern_injective(ah, bh);
        lemma_halves_u128(a, b, 0);
    }

    proof fn lemma_constants() {
        assert forall|i: int| 0 <= i < 128 implies #[trigger] Self::ZERO.pattern()[i] == false by {
            lemma_bits_u128(0, 0, i as u128, 0);
        }
        assert forall|i: int| 0 <= i < 128 implies
            #[trigger] Self::ONE.pattern()[i] == (i == 0)
        by {
            lemma_bits_u128(0, 0, i as u128, 0);
        }
        assert forall|i: int| 0 <= i < 128 implies #[trigger] Self::FULL.pattern()[i] == true by {
            lemma_bits_u128(0, 0, i as u128, 0);
        }
        assert forall|i: int| 0 <= i < 128 implies
            #[trigger] Self::TOP.pattern()[i] == (i == 127)
        by {
            lemma_bits_u128(0, 0, i as u128, 0);
        }
        assert(Self::ZERO.pattern() =~= uniform(128, false));
        assert(Self::ONE.pattern() =~= mask_at(128, 0));
        assert(Self::FULL.pattern() =~= uniform(128, true));
        assert(Self::TOP.pattern() =~= mask_at(128, 127));
    }

    proof fn lemma_eq() {
    }

    fn bitand(self, other: Self) -> (r: Self) {
        let r = self & other;
        proof {
            assert forall|i: int| 0 <= i < 128 implies
                #[trigger] r.pattern()[i] == (self.pattern()[i] && other.pattern()[i])
            by {
                lemma_bits_u128(self, other, i as u128, 0);
            }
            assert(r.pattern() =~= and_of(self.pattern(), other.pattern()));
        }
        r
    }

    fn bitor(self, other: Self) -> (r: Self) {
        let r = self | other;
        proof {
            assert forall|i: int| 0 <= i < 128 implies
                #[trigger] r.pattern()[i] == (self.pattern()[i] || other.pattern()[i])
            by {
                lemma_bits_u128(self, other, i as u128, 0);
            }
            assert(r.pattern() =~= or_of(self.pattern(), other.pattern()));
        }
        r
    }

    fn bitxor(self, other: Self) -> (r: Self) {
        let r = self ^ other;
        proof {
            assert forall|i: int| 0 <= i < 128 implies
                #[trigger] r.pattern()[i] == (self.pattern()[i] != other.pattern()[i])
            by {
                lemma_bits_u128(self, other, i as u128, 0);
            }
            assert(r.pattern() =~= xor_of(self.pattern(), other.pattern()));
        }
        r
    }

    fn not(self) -> (r: Self) {
        let r = !self;
        proof {
            assert forall|i: int| 0 <= i < 128 implies
                #[trigger] r.pattern()[i] == !self.pattern()[i]
            by {
                lemma_bits_u128(self, 0, i as u128, 0);
            }
            assert(r.pattern() =~= not_of(self.pattern()));
        }
        r
    }

    fn shl(self, n: u32) -> (r: Self) {
        let r = self << n;
        proof {
            assert forall|i: int| 0 <= i < 128 implies
                #[trigger] r.pattern()[i] == (i >= n && self.pattern()[i - n])
            by {
                lemma_bits_u128(self, 0, i as u128, n as u128);
            }
            assert(r.pattern() =~= shift_up(self.pattern(), n as nat));
        }
        r
    }

    fn shr(self, n: u32) -> (r: Self) {
        let r = self >> n;
        proof {
            assert forall|i: int| 0 <= i < 128 implies
                #[trigger] r.pattern()[i] == (i + n < 128 && self.pattern()[i + n])
            by {
                lemma_bits_u128(self, 0, i as u128, n as u128);
            }
            assert(r.pattern() =~= shift_down(self.pattern(), n as nat));
        }
        r
    }

    fn trailing_zeros(self) -> (r: u32) {
        let low = #[verifier::truncate] (self as u64);
        let high = #[verifier::truncate] ((self >> 64) as u64);
        let in_low = Binary::trailing_zeros(low);
        proof {
            lemma_pattern_u128(self);
            lemma_low_run(low.pattern(), false);
        }
        if in_low < 64 {
            proof {
                lemma_low_run_unique(self.pattern(), false, in_low as int);
            }
            in_low
        } else {
            let in_high = Binary::trailing_zeros(high);
            proof {
                lemma_low_run(high.pattern(), false);
                lemma_low_run_unique(self.pattern(), false, 64 + in_high);
            }
            64 + in_high
        }
    }

    fn trailing_ones(self) -> (r: u32) {
        let low = #[verifier::truncate] (self as u64);
        let high = #[verifier::truncate] ((self >> 64) as u64);
        let in_low = Binary::trailing_ones(low);
        proof {
            lemma_pattern_u128(self);
            lemma_low_run(low.pattern(), true);
        }
        if in_low < 64 {
            proof {
                lemma_low_run_unique(self.pattern(), true, in_low as int);
            }
            in_low
        } else {
            let in_high = Binary::trailing_ones(high);
            proof {
                lemma_low_run(high.pattern(), true);
                lemma_low_run_unique(self.pattern(), true, 64 + in_high);
            }
            64 + in_high
        }
    }

    fn leading_zeros(self) -> (r: u32) {
        let low = #[verifier::truncate] (self as u64);
        let high = #[verifier::truncate] ((self >> 64) as u64);
        let in_high = Binary::leading_zeros(high);
        proof {
            lemma_pattern_u128(self);
            lemma_high_run(high.pattern(), false);
        }
        if in_high < 64 {
            proof {
                lemma_high_run_unique(self.pattern(), false, in_high as int);
            }
            in_high
        } else {
            let in_low = Binary::leading_zeros(low);
            proof {
                lemma_high_run(low.pattern(), false);
                lemma_high_run_unique(self.pattern(), false, 64 + in_low);
            }
            64 + in_low
        }
    }

    fn leading_ones(self) -> (r: u32) {
        let low = #[verifier::truncate] (self as u64);
        let high = #[verifier::truncate] ((self >> 64) as u64);
        let in_high = Binary::leading_ones(high);
        proof {
            lemma_pattern_u128(self);
            lemma_high_run(high.pattern(), true);
        }
        if in_high < 64 {
            proof {
                lemma_high_run_unique(self.pattern(), true, in_high as int);
            }
            in_high
        } else {
            let in_low = Binary::leading_ones(low);
            proof {
                lemma_high_run(low.pattern(), true);
                lemma_high_run_unique(self.pattern(), true, 64 + in_low);
            }
            64 + in_low
        }
    }
}

/// Casting between `i128` and `u128` loses nothing in either direction, and
/// takes the constants of one type to those of the other.
proof fn lemma_cast_i128(x: i128, y: u128)
    by (bit_vector)
    ensures
        (x as u128) as i128 == x,
        (y as i128) as u128 == y,
        0i128 as u128 == 0u128,
        1i128 as u128 == 1u128,
        (-1i128) as u128 == 0xffff_ffff_ffff_ffff_ffff_ffff_ffff_ffff,
        i128::MIN as u128 == 0x8000_0000_0000_0000_0000_0000_0000_0000,
{
}

impl Binary for i128 {
    open spec fn width() -> nat {
        128
    }

    open spec fn pattern(self) -> Seq<bool> {
        (self as u128).pattern()
    }

    const ZERO: Self = 0;

    const ONE: Self = 1;

    const FULL: Self = -1;

    const TOP: Self = i128::MIN;

    const MAX_BIT_IDX: u32 = 127;

    proof fn lemma_width(v: Self) {
        u128::lemma_width(v as u128);
        assert(Self::width() == Self::MAX_BIT_IDX + 1);
    }

    proof fn lemma_pattern_injective(a: Self, b: Self) {
        u128::lemma_pattern_injective(a as u128, b as u128);
        lemma_cast_i128(a, 0);
        lemma_cast_i128(b, 0);
    }

    proof fn lemma_constants() {
        u128::lemma_constants();
        lemma_cast_i128(i128::MIN, u128::TOP);
        assert(Self::ZERO.pattern() == u128::ZERO.pattern());
        assert(Self::ONE.pattern() == u128::ONE.pattern());
        assert(Self::FULL.pattern() == u128::FULL.pattern());
        assert(Self::TOP.pattern() == u128::TOP.pattern());
    }

    proof fn lemma_eq() {
    }

    fn bitand(self, other: Self) -> (r: Self) {
        let u = Binary::bitand(
            #[verifier::truncate] (self as u128),
            #[verifier::truncate] (other as u128),
        );
        proof {
            lemma_cast_i128(0, u);
        }
        #[verifier::truncate] (u as i128)
    }

    fn bitor(self, other: Self) -> (r: Self) {
        let u = Binary::bitor(
            #[verifier::truncate] (self as u128),
            #[verifier::truncate] (other as u128),
        );
        proof {
            lemma_cast_i128(0, u);
        }
        #[verifier::truncate] (u as i128)
    }

    fn bitxor(self, other: Self) -> (r: Self) {
        let u = Binary::bitxor(
            #[verifier::truncate] (self as u128),
            #[verifier::truncate] (other as u128),
        );
        proof {
            lemma_cast_i128(0, u);
        }
        #[verifier::truncate] (u as i128)
    }

    fn not(self) -> (r: Self) {
        let u = Binary::not(#[verifier::truncate] (self as u128));
        proof {
            lemma_cast_i128(0, u);
        }
        #[verifier::truncate] (u as i128)
    }

    fn shl(self, n: u32) -> (r: Self) {
        let u = Binary::shl(#[verifier::truncate] (self as u128), n);
        proof {
            lemma_cast_i128(0, u);
        }
        #[verifier::truncate] (u as i128)
    }

    fn shr(self, n: u32) -> (r: Self) {
        let u = Binary::shr(#[verifier::truncate] (self as u128), n);
        proof {
            lemma_cast_i128(0, u);
        }
        #[verifier::truncate] (u as i128)
    }

    fn trailing_zeros(self) -> (r: u32) {
        Binary::trailing_zeros(#[verifier::truncate] (self as u128))
    }

    fn trailing_ones(self) -> (r: u32) {
        Binary::trailing_ones(#[verifier::truncate] (self as u128))
    }

    fn leading_zeros(self) -> (r: u32) {
        Binary::leading_zeros(#[verifier::truncate] (self as u128))
    }

    fn leading_ones(self) -> (r: u32) {
        Binary::leading_ones(#[verifier::truncate] (self as u128))
    }
}

} // verus!
