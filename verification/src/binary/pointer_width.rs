//! `Binary` for the pointer-sized integers, `usize` and `isize`.
//!
//! Both are as wide as the platform's pointers: `usize::BITS` bits. The bit
//! scans widen the value to a `u64` and correct for the positions that the
//! widening adds. An `isize` has the bit pattern of the `usize` it casts to,
//! and every operation on it is carried out on that `usize`.

use crate::binary::width64::bit_u64;
use crate::binary::Binary;
use crate::pattern::{
    and_of, lemma_high_run, lemma_high_run_unique, lemma_low_run, lemma_low_run_unique,
    lemma_runs_of_complement, mask_at, not_of, or_of, shift_down, shift_up, uniform, xor_of,
};
use vstd::prelude::*;

verus! {

/// Whether bit `i` of `a` is set.
pub open spec fn bit_usize(a: usize, i: usize) -> bool {
    (a >> i) & 1 == 1
}

/// How each operator on `usize` acts on a single bit: `i` is the position
/// looked at and `n` a shift distance.
proof fn lemma_bits_usize(a: usize, b: usize, i: usize, n: usize)
    by (bit_vector)
    requires
        i < usize::BITS,
        n < usize::BITS,
    ensures
        bit_usize(a & b, i) == (bit_usize(a, i) && bit_usize(b, i)),
        bit_usize(a | b, i) == (bit_usize(a, i) || bit_usize(b, i)),
        bit_usize(a ^ b, i) == (bit_usize(a, i) != bit_usize(b, i)),
        bit_usize(!a, i) == !bit_usize(a, i),
        bit_usize(a << n, i) == (i >= n && bit_usize(a, (i - n) as usize)),
        bit_usize(a >> n, i) == (i + n < usize::BITS && bit_usize(a, (i + n) as usize)),
        bit_usize(0, i) == false,
        bit_usize(1, i) == (i == 0),
        bit_usize(!0usize, i) == true,
        bit_usize(!(!0usize >> 1), i) == (i == usize::BITS - 1),
{
}

/// Widening a `usize` to a `u64` keeps its bits and adds only zeros.
proof fn lemma_widen_usize(a: usize, i: u64)
    by (bit_vector)
    requires
        i < 64,
    ensures
        i < usize::BITS ==> bit_u64(a as u64, i) == bit_usize(a, i as usize),
        i >= usize::BITS ==> !bit_u64(a as u64, i),
{
}

/// The pattern of a widened `usize` is its own pattern followed by zeros.
proof fn lemma_pattern_usize(a: usize)
    ensures
        (a as u64).pattern() == a.pattern() + uniform((64 - usize::BITS) as nat, false),
{
    let s = a.pattern() + uniform((64 - usize::BITS) as nat, false);
    assert forall|j: int| 0 <= j < 64 implies (a as u64).pattern()[j] == s[j] by {
        lemma_widen_usize(a, j as u64);
    }
    assert((a as u64).pattern() =~= s);
}

impl Binary for usize {
    open spec fn width() -> nat {
        usize::BITS as nat
    }

    open spec fn pattern(self) -> Seq<bool> {
        Seq::new(usize::BITS as nat, |i: int| bit_usize(self, i as usize))
    }

    const ZERO: Self = 0;

    const ONE: Self = 1;

    const FULL: Self = !0;

    const TOP: Self = !(!0 >> 1);

    const MAX_BIT_IDX: u32 = usize::BITS - 1;

    proof fn lemma_width(v: Self) {
        assert(v.pattern().len() == usize::BITS);
        assert(Self::width() == Self::MAX_BIT_IDX + 1);
    }

    proof fn lemma_pattern_injective(a: Self, b: Self) {
        lemma_pattern_usize(a);
        lemma_pattern_usize(b);
        u64::lemma_pattern_injective(a as u64, b as u64);
    }

    proof fn lemma_constants() {
        let n = usize::BITS as nat;
        assert forall|i: int| 0 <= i < n implies #[trigger] Self::ZERO.pattern()[i] == false by {
            lemma_bits_usize(0, 0, i as usize, 0);
        }
        assert forall|i: int| 0 <= i < n implies #[trigger] Self::ONE.pattern()[i] == (i == 0) by {
            lemma_bits_usize(0, 0, i as usize, 0);
        }
        assert forall|i: int| 0 <= i < n implies #[trigger] Self::FULL.pattern()[i] == true by {
            lemma_bits_usize(0, 0, i as usize, 0);
        }
        assert forall|i: int| 0 <= i < n implies
            #[trigger] Self::TOP.pattern()[i] == (i == n - 1)
        by {
            lemma_bits_usize(0, 0, i as usize, 0);
        }
        assert(Self::ZERO.pattern() =~= uniform(n, false));
        assert(Self::ONE.pattern() =~= mask_at(n, 0));
        assert(Self::FULL.pattern() =~= uniform(n, true));
        assert(Self::TOP.pattern() =~= mask_at(n, n - 1));
    }

    proof fn lemma_eq() {
    }

    fn bitand(self, other: Self) -> (r: Self) {
        let r = self & other;
        proof {
            assert forall|i: int| 0 <= i < usize::BITS implies
                #[trigger] r.pattern()[i] == (self.pattern()[i] && other.pattern()[i])
            by {
                lemma_bits_usize(self, other, i as usize, 0);
            }
            assert(r.pattern() =~= and_of(self.pattern(), other.pattern()));
        }
        r
    }

    fn bitor(self, other: Self) -> (r: Self) {
        let r = self | other;
        proof {
            assert forall|i: int| 0 <= i < usize::BITS implies
                #[trigger] r.pattern()[i] == (self.pattern()[i] || other.pattern()[i])
            by {
                lemma_bits_usize(self, other, i as usize, 0);
            }
            assert(r.pattern() =~= or_of(self.pattern(), other.pattern()));
        }
        r
    }

    fn bitxor(self, other: Self) -> (r: Self) {
        let r = self ^ other;
        proof {
            assert forall|i: int| 0 <= i < usize::BITS implies
                #[trigger] r.pattern()[i] == (self.pattern()[i] != other.pattern()[i])
            by {
                lemma_bits_usize(self, other, i as usize, 0);
            }
            assert(r.pattern() =~= xor_of(self.pattern(), other.pattern()));
        }
        r
    }

    fn not(self) -> (r: Self) {
        let r = !self;
        proof {
            assert forall|i: int| 0 <= i < usize::BITS implies
                #[trigger] r.pattern()[i] == !self.pattern()[i]
            by {
                lemma_bits_usize(self, 0, i as usize, 0);
            }
            assert(r.pattern() =~= not_of(self.pattern()));
        }
        r
    }

    fn shl(self, n: u32) -> (r: Self) {
        let r = self << n;
        proof {
            assert forall|i: int| 0 <= i < usize::BITS implies
                #[trigger] r.pattern()[i] == (i >= n && self.pattern()[i - n])
            by {
                lemma_bits_usize(self, 0, i as usize, n as usize);
            }
            assert(r.pattern() =~= shift_up(self.pattern(), n as nat));
        }
        r
    }

    fn shr(self, n: u32) -> (r: Self) {
        let r = self >> n;
        proof {
            assert forall|i: int| 0 <= i < usize::BITS implies
                #[trigger] r.pattern()[i] == (i + n < usize::BITS && self.pattern()[i + n])
            by {
                lemma_bits_usize(self, 0, i as usize, n as usize);
            }
            assert(r.pattern() =~= shift_down(self.pattern(), n as nat));
        }
        r
    }

    fn trailing_zeros(self) -> (r: u32) {
        // A zero stays zero when widened, and then all 64 positions count.
        let wide = Binary::trailing_zeros(self as u64);
        let r = if wide < usize::BITS {
            wide
        } else {
            usize::BITS
        };
        proof {
            let w = (self as u64).pattern();
            lemma_pattern_usize(self);
            lemma_low_run(w, false);
            assert forall|j: int| 0 <= j < r implies self.pattern()[j] == false by {
                assert(w[j] == self.pattern()[j]);
            }
            if r < usize::BITS {
                assert(w[r as int] == self.pattern()[r as int]);
            }
            lemma_low_run_unique(self.pattern(), false, r as int);
        }
        r
    }

    fn trailing_ones(self) -> (r: u32) {
        let r = Binary::trailing_zeros(Binary::not(self));
        proof {
            lemma_runs_of_complement(self.pattern(), false);
        }
        r
    }

    fn leading_zeros(self) -> (r: u32) {
        // The widened value starts with the zeros that the widening added.
        let wide = Binary::leading_zeros(self as u64);
        proof {
            lemma_pattern_usize(self);
            lemma_high_run((self as u64).pattern(), false);
            assert(wide >= 64 - usize::BITS) by {
                if wide < 64 - usize::BITS {
                    assert((self as u64).pattern()[64 - 1 - wide] == false);
                }
            }
        }
        let r = wide - (64 - usize::BITS);
        proof {
            let w = (self as u64).pattern();
            assert forall|j: int| usize::BITS - r <= j < usize::BITS implies
                self.pattern()[j] == false
            by {
                assert(w[j] == self.pattern()[j]);
            }
            if r < usize::BITS {
                assert(w[64 - 1 - wide] == self.pattern()[usize::BITS - 1 - r]);
            }
            lemma_high_run_unique(self.pattern(), false, r as int);
        }
        r
    }

    fn leading_ones(self) -> (r: u32) {
        let r = Binary::leading_zeros(Binary::not(self));
        proof {
            lemma_runs_of_complement(self.pattern(), false);
        }
        r
    }
}

/// Casting between `isize` and `usize` loses nothing in either direction, and
/// takes the constants of one type to those of the other: the value with a
/// lone top bit is the least `isize` there is.
proof fn lemma_cast_isize(x: isize, y: usize)
    by (bit_vector)
    ensures
        (x as usize) as isize == x,
        (y as isize) as usize == y,
        0isize as usize == 0usize,
        1isize as usize == 1usize,
        (-1isize) as usize == !0usize,
        ((!(!0usize >> 1)) as isize) <= x,
{
}

impl Binary for isize {
    open spec fn width() -> nat {
        usize::BITS as nat
    }

    open spec fn pattern(self) -> Seq<bool> {
        (self as usize).pattern()
    }

    const ZERO: Self = 0;

    const ONE: Self = 1;

    const FULL: Self = -1;

    const TOP: Self = isize::MIN;

    const MAX_BIT_IDX: u32 = usize::BITS - 1;

    proof fn lemma_width(v: Self) {
        usize::lemma_width(v as usize);
        assert(Self::width() == Self::MAX_BIT_IDX + 1);
    }

    proof fn lemma_pattern_injective(a: Self, b: Self) {
        usize::lemma_pattern_injective(a as usize, b as usize);
        lemma_cast_isize(a, 0);
        lemma_cast_isize(b, 0);
    }

    proof fn lemma_constants() {
        usize::lemma_constants();
        lemma_cast_isize(isize::MIN, usize::TOP);
        assert(Self::ZERO.pattern() == usize::ZERO.pattern());
        assert(Self::ONE.pattern() == usize::ONE.pattern());
        assert(Self::FULL.pattern() == usize::FULL.pattern());
        assert(Self::TOP.pattern() == usize::TOP.pattern());
    }

    proof fn lemma_eq() {
    }

    fn bitand(self, other: Self) -> (r: Self) {
        let u = Binary::bitand(
            #[verifier::truncate] (self as usize),
            #[verifier::truncate] (other as usize),
        );
        proof {
            lemma_cast_isize(0, u);
        }
        #[verifier::truncate] (u as isize)
    }

    fn bitor(self, other: Self) -> (r: Self) {
        let u = Binary::bitor(
            #[verifier::truncate] (self as usize),
            #[verifier::truncate] (other as usize),
        );
        proof {
            lemma_cast_isize(0, u);
        }
        #[verifier::truncate] (u as isize)
    }

    fn bitxor(self, other: Self) -> (r: Self) {
        let u = Binary::bitxor(
            #[verifier::truncate] (self as usize),
            #[verifier::truncate] (other as usize),
        );
        proof {
            lemma_cast_isize(0, u);
        }
        #[verifier::truncate] (u as isize)
    }

    fn not(self) -> (r: Self) {
        let u = Binary::not(#[verifier::truncate] (self as usize));
        proof {
            lemma_cast_isize(0, u);
        }
        #[verifier::truncate] (u as isize)
    }

    fn shl(self, n: u32) -> (r: Self) {
        let u = Binary::shl(#[verifier::truncate] (self as usize), n);
        proof {
            lemma_cast_isize(0, u);
        }
        #[verifier::truncate] (u as isize)
    }

    fn shr(self, n: u32) -> (r: Self) {
        let u = Binary::shr(#[verifier::truncate] (self as usize), n);
        proof {
            lemma_cast_isize(0, u);
        }
        #[verifier::truncate] (u as isize)
    }

    fn trailing_zeros(self) -> (r: u32) {
        Binary::trailing_zeros(#[verifier::truncate] (self as usize))
    }

    fn trailing_ones(self) -> (r: u32) {
        Binary::trailing_ones(#[verifier::truncate] (self as usize))
    }

    fn leading_zeros(self) -> (r: u32) {
        Binary::leading_zeros(#[verifier::truncate] (self as usize))
    }

    fn leading_ones(self) -> (r: u32) {
        Binary::leading_ones(#[verifier::truncate] (self as usize))
    }
}

} // verus!
