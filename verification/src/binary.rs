//! The capability contract that every supported integer type fulfils.

use crate::pattern::{
    and_of, high_run, lemma_high_run, lemma_low_run, lemma_positions_empty, low_run, mask_at,
    not_of, or_of, positions, shift_down, shift_up, uniform, xor_of,
};
use vstd::prelude::*;
use vstd::std_specs::cmp::PartialEqSpec;

pub mod pointer_width;
pub mod width128;
pub mod width16;
pub mod width32;
pub mod width64;
pub mod width8;

verus! {

/// A fixed-width integer, signed or unsigned, treated purely as a bit
/// pattern.
///
/// The meaning of a value is its [`pattern`](Binary::pattern): a sequence of
/// `width()` booleans, position 0 being the least significant bit. Every
/// operation of the trait is specified by what it does to that sequence, so
/// signed and unsigned types of one width behave alike.
pub trait Binary: Sized + Copy + PartialEq + Eq {
    /// The number of bits in a value.
    spec fn width() -> nat;

    /// The bits of the value, least significant first.
    spec fn pattern(self) -> Seq<bool>;

    /// The value where all bits are set to zero.
    const ZERO: Self;

    /// The value whose only 1-bit is the least significant one.
    const ONE: Self;

    /// The value where all bits are set to one.
    const FULL: Self;

    /// The value with only the most significant bit set to one.
    const TOP: Self;

    /// The value's maximum bit index (one less than size in bits).
    const MAX_BIT_IDX: u32;

    /// Every pattern has exactly `width()` positions, one more than
    /// `MAX_BIT_IDX`.
    proof fn lemma_width(v: Self)
        ensures
            v.pattern().len() == Self::width(),
            Self::width() == Self::MAX_BIT_IDX + 1,
    ;

    /// Two values with the same pattern are the same value.
    proof fn lemma_pattern_injective(a: Self, b: Self)
        requires
            a.pattern() == b.pattern(),
        ensures
            a == b,
    ;

    /// The patterns of the four constants.
    proof fn lemma_constants()
        ensures
            Self::ZERO.pattern() == uniform(Self::width(), false),
            Self::ONE.pattern() == mask_at(Self::width(), 0),
            Self::FULL.pattern() == uniform(Self::width(), true),
            Self::TOP.pattern() == mask_at(Self::width(), Self::width() - 1),
    ;

    /// `==` on the type is equality of values.
    proof fn lemma_eq()
        ensures
            Self::obeys_eq_spec(),
            forall|a: Self, b: Self| #[trigger] a.eq_spec(&b) <==> a == b,
    ;

    /// Bitwise AND.
    fn bitand(self, other: Self) -> (r: Self)
        ensures
            r.pattern() == and_of(self.pattern(), other.pattern()),
    ;

    /// Bitwise OR.
    fn bitor(self, other: Self) -> (r: Self)
        ensures
            r.pattern() == or_of(self.pattern(), other.pattern()),
    ;

    /// Bitwise XOR.
    fn bitxor(self, other: Self) -> (r: Self)
        ensures
            r.pattern() == xor_of(self.pattern(), other.pattern()),
    ;

    /// Bitwise complement.
    fn not(self) -> (r: Self)
        ensures
            r.pattern() == not_of(self.pattern()),
    ;

    /// Shifts the pattern `n` positions towards the most significant end.
    fn shl(self, n: u32) -> (r: Self)
        requires
            n <= Self::MAX_BIT_IDX,
        ensures
            r.pattern() == shift_up(self.pattern(), n as nat),
    ;

    /// Shifts the pattern `n` positions towards the least significant end,
    /// filling with zeros from the top whatever the sign of the value.
    fn shr(self, n: u32) -> (r: Self)
        requires
            n <= Self::MAX_BIT_IDX,
        ensures
            r.pattern() == shift_down(self.pattern(), n as nat),
    ;

    /// Returns the number of trailing zeros.
    fn trailing_zeros(self) -> (r: u32)
        ensures
            r == low_run(self.pattern(), false),
    ;

    /// Returns the number of trailing ones.
    fn trailing_ones(self) -> (r: u32)
        ensures
            r == low_run(self.pattern(), true),
    ;

    /// Returns the number of leading zeros.
    fn leading_zeros(self) -> (r: u32)
        ensures
            r == high_run(self.pattern(), false),
    ;

    /// Returns the number of leading ones.
    fn leading_ones(self) -> (r: u32)
        ensures
            r == high_run(self.pattern(), true),
    ;

    /// Like [`shl`](Binary::shl), for any `n`: once `n` reaches the width
    /// every bit has been pushed out and the result is `ZERO`.
    fn unbounded_shl(self, n: u32) -> (r: Self)
        ensures
            r.pattern() == shift_up(self.pattern(), n as nat),
    {
        if n <= Self::MAX_BIT_IDX {
            self.shl(n)
        } else {
            proof {
                Self::lemma_width(self);
                Self::lemma_constants();
                assert(uniform(Self::width(), false) =~= shift_up(self.pattern(), n as nat));
            }
            Self::ZERO
        }
    }

    /// Like [`shr`](Binary::shr), for any `n`: once `n` reaches the width
    /// every bit has been pushed out and the result is `ZERO`, for a negative
    /// value too.
    fn unbounded_shr(self, n: u32) -> (r: Self)
        ensures
            r.pattern() == shift_down(self.pattern(), n as nat),
    {
        if n <= Self::MAX_BIT_IDX {
            self.shr(n)
        } else {
            proof {
                Self::lemma_width(self);
                Self::lemma_constants();
                assert(uniform(Self::width(), false) =~= shift_down(self.pattern(), n as nat));
            }
            Self::ZERO
        }
    }

    /// Returns the value's least significant 0-bit, or `ZERO` if there is none.
    fn lowest_zero(self) -> (r: Self)
        ensures
            r.pattern() == mask_at(Self::width(), low_run(self.pattern(), true) as int),
            r == Self::ZERO <==> self == Self::FULL,
    {
        let k = self.trailing_ones();
        let r = Self::ONE.unbounded_shl(k);
        proof {
            Self::lemma_width(self);
            Self::lemma_constants();
            assert(r.pattern() =~= mask_at(Self::width(), k as int));
            lemma_low_run(self.pattern(), true);
            if k == Self::width() {
                assert(self.pattern() =~= uniform(Self::width(), true));
                Self::lemma_pattern_injective(self, Self::FULL);
                assert(r.pattern() =~= uniform(Self::width(), false));
                Self::lemma_pattern_injective(r, Self::ZERO);
            } else {
                assert(r.pattern()[k as int]);
                assert(!self.pattern()[k as int]);
            }
        }
        r
    }

    /// Returns the value's least significant 1-bit, or `ZERO` if there is none.
    fn lowest_one(self) -> (r: Self)
        ensures
            r.pattern() == mask_at(Self::width(), low_run(self.pattern(), false) as int),
            r == Self::ZERO <==> self == Self::ZERO,
    {
        let k = self.trailing_zeros();
        let r = Self::ONE.unbounded_shl(k);
        proof {
            Self::lemma_width(self);
            Self::lemma_constants();
            assert(r.pattern() =~= mask_at(Self::width(), k as int));
            lemma_low_run(self.pattern(), false);
            if k == Self::width() {
                assert(self.pattern() =~= uniform(Self::width(), false));
                Self::lemma_pattern_injective(self, Self::ZERO);
                assert(r.pattern() =~= uniform(Self::width(), false));
                Self::lemma_pattern_injective(r, Self::ZERO);
            } else {
                assert(r.pattern()[k as int]);
                assert(self.pattern()[k as int]);
            }
        }
        r
    }

    /// Returns the value's most significant 0-bit, or `ZERO` if there is none.
    fn highest_zero(self) -> (r: Self)
        ensures
            r.pattern() == mask_at(
                Self::width(),
                Self::width() - 1 - high_run(self.pattern(), true),
            ),
            r == Self::ZERO <==> self == Self::FULL,
    {
        let k = self.leading_ones();
        let r = Self::TOP.unbounded_shr(k);
        proof {
            Self::lemma_width(self);
            Self::lemma_constants();
            assert(r.pattern() =~= mask_at(Self::width(), Self::width() - 1 - k));
            lemma_high_run(self.pattern(), true);
            if k == Self::width() {
                assert(self.pattern() =~= uniform(Self::width(), true));
                Self::lemma_pattern_injective(self, Self::FULL);
                assert(r.pattern() =~= uniform(Self::width(), false));
                Self::lemma_pattern_injective(r, Self::ZERO);
            } else {
                assert(r.pattern()[Self::width() - 1 - k]);
                assert(!self.pattern()[Self::width() - 1 - k]);
            }
        }
        r
    }

    /// Returns the value's most significant 1-bit, or `ZERO` if there is none.
    fn highest_one(self) -> (r: Self)
        ensures
            r.pattern() == mask_at(
                Self::width(),
                Self::width() - 1 - high_run(self.pattern(), false),
            ),
            r == Self::ZERO <==> self == Self::ZERO,
    {
        let k = self.leading_zeros();
        let r = Self::TOP.unbounded_shr(k);
        proof {
            Self::lemma_width(self);
            Self::lemma_constants();
            assert(r.pattern() =~= mask_at(Self::width(), Self::width() - 1 - k));
            lemma_high_run(self.pattern(), false);
            if k == Self::width() {
                assert(self.pattern() =~= uniform(Self::width(), false));
                Self::lemma_pattern_injective(self, Self::ZERO);
                assert(r.pattern() =~= uniform(Self::width(), false));
                Self::lemma_pattern_injective(r, Self::ZERO);
            } else {
                assert(r.pattern()[Self::width() - 1 - k]);
                assert(self.pattern()[Self::width() - 1 - k]);
            }
        }
        r
    }
}

/// A value is `ZERO` exactly when its pattern holds no 1-bit, and `FULL`
/// exactly when it holds no 0-bit.
pub proof fn lemma_no_bits_left<T: Binary>(v: T)
    ensures
        v == T::ZERO <==> positions(v.pattern(), true).len() == 0,
        v == T::FULL <==> positions(v.pattern(), false).len() == 0,
{
    T::lemma_constants();
    T::lemma_width(v);
    lemma_positions_empty(v.pattern(), true);
    lemma_positions_empty(v.pattern(), false);
    if positions(v.pattern(), true).len() == 0 {
        T::lemma_pattern_injective(v, T::ZERO);
    }
    if positions(v.pattern(), false).len() == 0 {
        T::lemma_pattern_injective(v, T::FULL);
    }
}

/// A scan never counts more than the width, and it counts the whole width
/// at one value only: `ZERO` for the scans of zeros, `FULL` for the scans of
/// ones.
pub proof fn lemma_whole_width_runs<T: Binary>(v: T)
    ensures
        low_run(v.pattern(), false) <= T::width(),
        low_run(v.pattern(), true) <= T::width(),
        high_run(v.pattern(), false) <= T::width(),
        high_run(v.pattern(), true) <= T::width(),
        low_run(v.pattern(), false) == T::width() <==> v == T::ZERO,
        high_run(v.pattern(), false) == T::width() <==> v == T::ZERO,
        low_run(v.pattern(), true) == T::width() <==> v == T::FULL,
        high_run(v.pattern(), true) == T::width() <==> v == T::FULL,
{
    let s = v.pattern();
    T::lemma_constants();
    T::lemma_width(v);
    lemma_low_run(s, false);
    lemma_low_run(s, true);
    lemma_high_run(s, false);
    lemma_high_run(s, true);
    if low_run(s, false) == T::width() || high_run(s, false) == T::width() {
        assert(s =~= uniform(T::width(), false));
        T::lemma_pattern_injective(v, T::ZERO);
    }
    if low_run(s, true) == T::width() || high_run(s, true) == T::width() {
        assert(s =~= uniform(T::width(), true));
        T::lemma_pattern_injective(v, T::FULL);
    }
}

} // verus!
