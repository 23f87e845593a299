//! What the traversals add up to.
//!
//! A destructive traversal (`Ones`, `Zeros`, `OneIndices`, `ZeroIndices`)
//! starts from the list `positions(v.pattern(), b)` and every pull removes
//! one end of that list. The theorems here say what any sequence of pulls
//! hands out, stated over that list and over the patterns of the items.

use crate::binary::Binary;
use crate::pattern::{
    ascending, lemma_positions, lemma_positions_unique, lists_positions, mask_at, not_of, or_of,
    positions, shift_up, uniform,
};
use vstd::prelude::*;

verus! {

/// The OR of the single-bit masks of width `n` at the listed positions.
pub open spec fn or_reduce(n: nat, at: Seq<int>) -> Seq<bool>
    decreases at.len(),
{
    if at.len() == 0 {
        uniform(n, false)
    } else {
        or_of(or_reduce(n, at.drop_last()), mask_at(n, at.last()))
    }
}

/// What a run of pulls hands out from the list `at`.
///
/// `ends` names the end that each pull takes from, in the order of the
/// pulls: `true` for the front, `false` for the back. A pull on an empty
/// list hands out nothing and leaves the list empty.
pub open spec fn handed_out(at: Seq<int>, ends: Seq<bool>) -> Seq<int>
    decreases ends.len(),
{
    if ends.len() == 0 || at.len() == 0 {
        Seq::empty()
    } else if ends.first() {
        seq![at.first()] + handed_out(at.drop_first(), ends.drop_first())
    } else {
        seq![at.last()] + handed_out(at.drop_last(), ends.drop_first())
    }
}

/// What is left of the list `at` after the pulls that `ends` names.
pub open spec fn kept_back(at: Seq<int>, ends: Seq<bool>) -> Seq<int>
    decreases ends.len(),
{
    if ends.len() == 0 || at.len() == 0 {
        at
    } else if ends.first() {
        kept_back(at.drop_first(), ends.drop_first())
    } else {
        kept_back(at.drop_last(), ends.drop_first())
    }
}

/// Position `j` of the OR is set exactly when `j` is listed.
proof fn lemma_or_reduce_bit(n: nat, at: Seq<int>, j: int)
    requires
        0 <= j < n,
    ensures
        or_reduce(n, at).len() == n,
        or_reduce(n, at)[j] == at.contains(j),
    decreases at.len(),
{
    if at.len() > 0 {
        let front = at.drop_last();
        lemma_or_reduce_bit(n, front, j);
        if front.contains(j) {
            let k = choose|k: int| 0 <= k < front.len() && front[k] == j;
            assert(at[k] == j);
        }
        if at.contains(j) && at.last() != j {
            let k = choose|k: int| 0 <= k < at.len() && at[k] == j;
            assert(front[k] == j);
        }
        if at.last() == j {
            assert(at[at.len() - 1] == j);
        }
    }
}

/// OR-ing the masks of all 1-bits of a value gives the value back, and
/// OR-ing the masks of all its 0-bits gives its complement.
///
/// The masks are the items that `Ones` and `Zeros` hand out when pulled to
/// exhaustion.
pub proof fn lemma_or_of_items<T: Binary>(v: T)
    ensures
        or_reduce(T::width(), positions(v.pattern(), true)) == v.pattern(),
        or_reduce(T::width(), positions(v.pattern(), false)) == not_of(v.pattern()),
{
    let n = T::width();
    let s = v.pattern();
    T::lemma_width(v);
    lemma_positions(s, true);
    lemma_positions(s, false);
    assert forall|j: int| 0 <= j < n implies or_reduce(n, positions(s, true))[j] == s[j]
        && or_reduce(n, positions(s, false))[j] == !s[j] by {
        lemma_or_reduce_bit(n, positions(s, true), j);
        lemma_or_reduce_bit(n, positions(s, false), j);
        if positions(s, true).contains(j) {
            let k = choose|k: int| 0 <= k < positions(s, true).len() && positions(s, true)[k] == j;
            assert(s[positions(s, true)[k]]);
        }
        if positions(s, false).contains(j) {
            let k = choose|k: int|
                0 <= k < positions(s, false).len() && positions(s, false)[k] == j;
            assert(!s[positions(s, false)[k]]);
        }
    }
    lemma_or_reduce_bit(n, positions(s, true), 0);
    lemma_or_reduce_bit(n, positions(s, false), 0);
    assert(or_reduce(n, positions(s, true)) =~= s);
    assert(or_reduce(n, positions(s, false)) =~= not_of(s));
}

/// The `k`-th index that `OneIndices` (for `b == true`) or `ZeroIndices`
/// (for `b == false`) hands out from the front is a valid shift distance,
/// greater than the index before it, and `ONE` shifted left by it has the
/// pattern of the `k`-th item of `Ones` or `Zeros`.
pub proof fn lemma_index_matches_item<T: Binary>(v: T, b: bool, k: int)
    requires
        0 <= k < positions(v.pattern(), b).len(),
    ensures
        0 <= positions(v.pattern(), b)[k] <= T::MAX_BIT_IDX,
        k > 0 ==> positions(v.pattern(), b)[k - 1] < positions(v.pattern(), b)[k],
        shift_up(T::ONE.pattern(), positions(v.pattern(), b)[k] as nat) == mask_at(
            T::width(),
            positions(v.pattern(), b)[k],
        ),
{
    let at = positions(v.pattern(), b);
    T::lemma_width(v);
    T::lemma_constants();
    lemma_positions(v.pattern(), b);
    assert(0 <= at[k] < v.pattern().len());
    assert(shift_up(T::ONE.pattern(), at[k] as nat) =~= mask_at(T::width(), at[k]));
}

/// Whatever is handed out or kept back was in the list.
proof fn lemma_pulls_stay_inside(at: Seq<int>, ends: Seq<bool>)
    ensures
        forall|x: int| handed_out(at, ends).contains(x) ==> at.contains(x),
        forall|x: int| kept_back(at, ends).contains(x) ==> at.contains(x),
    decreases ends.len(),
{
    let got = handed_out(at, ends);
    let rest = kept_back(at, ends);
    if ends.len() > 0 && at.len() > 0 {
        let inner = if ends.first() {
            at.drop_first()
        } else {
            at.drop_last()
        };
        let shift: int = if ends.first() {
            1
        } else {
            0
        };
        lemma_pulls_stay_inside(inner, ends.drop_first());
        assert forall|x: int| inner.contains(x) implies at.contains(x) by {
            let k = choose|k: int| 0 <= k < inner.len() && inner[k] == x;
            assert(at[k + shift] == x);
        }
        assert forall|x: int| got.contains(x) implies at.contains(x) by {
            let k = choose|k: int| 0 <= k < got.len() && got[k] == x;
            if k == 0 {
                assert(at[0] == at.first() && at[at.len() - 1] == at.last());
            } else {
                assert(handed_out(inner, ends.drop_first())[k - 1] == x);
            }
        }
    }
}

/// Pulls from the front come out in ascending order, pulls from the back in
/// descending order, and whatever ends the pulls alternate between, an item
/// from the front is smaller than an item from the back.
///
/// `k` and `l` are the numbers of two pulls that handed out an item, the
/// `k`-th being the earlier one.
pub proof fn lemma_pull_order<T: Binary>(v: T, b: bool, ends: Seq<bool>, k: int, l: int)
    requires
        0 <= k < l < handed_out(positions(v.pattern(), b), ends).len(),
    ensures
        ({
            let got = handed_out(positions(v.pattern(), b), ends);
            &&& ends[k] && ends[l] ==> got[k] < got[l]
            &&& !ends[k] && !ends[l] ==> got[k] > got[l]
            &&& ends[k] && !ends[l] ==> got[k] < got[l]
            &&& !ends[k] && ends[l] ==> got[k] > got[l]
        }),
{
    lemma_positions(v.pattern(), b);
    lemma_order_of_pulls(positions(v.pattern(), b), ends, k, l);
}

/// `lemma_pull_order`, for any ascending list.
proof fn lemma_order_of_pulls(at: Seq<int>, ends: Seq<bool>, k: int, l: int)
    requires
        ascending(at),
        0 <= k < l < handed_out(at, ends).len(),
    ensures
        l < ends.len(),
        ({
            let got = handed_out(at, ends);
            &&& ends[k] && ends[l] ==> got[k] < got[l]
            &&& !ends[k] && !ends[l] ==> got[k] > got[l]
            &&& ends[k] && !ends[l] ==> got[k] < got[l]
            &&& !ends[k] && ends[l] ==> got[k] > got[l]
        }),
    decreases ends.len(),
{
    let got = handed_out(at, ends);
    lemma_handed_out_len(at, ends);
    let inner = if ends.first() {
        at.drop_first()
    } else {
        at.drop_last()
    };
    let later = handed_out(inner, ends.drop_first());
    assert(got[l] == later[l - 1]);
    assert(ends[l] == ends.drop_first()[l - 1]);
    if k == 0 {
        lemma_pulls_stay_inside(inner, ends.drop_first());
        lemma_handed_out_len(inner, ends.drop_first());
        assert(later.contains(later[l - 1]));
        assert(inner.contains(later[l - 1]));
        let m = choose|m: int| 0 <= m < inner.len() && inner[m] == later[l - 1];
        if ends.first() {
            assert(at[0] < at[m + 1]);
        } else {
            assert(at[m] < at[at.len() - 1]);
        }
    } else {
        assert(got[k] == later[k - 1]);
        assert(ends[k] == ends.drop_first()[k - 1]);
        lemma_order_of_pulls(inner, ends.drop_first(), k - 1, l - 1);
    }
}

/// As many items are handed out as there are pulls, until the list runs out.
proof fn lemma_handed_out_len(at: Seq<int>, ends: Seq<bool>)
    ensures
        handed_out(at, ends).len() == if ends.len() <= at.len() {
            ends.len()
        } else {
            at.len()
        },
        handed_out(at, ends).len() + kept_back(at, ends).len() == at.len(),
    decreases ends.len(),
{
    if ends.len() > 0 && at.len() > 0 {
        if ends.first() {
            lemma_handed_out_len(at.drop_first(), ends.drop_first());
        } else {
            lemma_handed_out_len(at.drop_last(), ends.drop_first());
        }
    }
}

/// How often `x` occurs in `at`.
pub open spec fn occurrences(at: Seq<int>, x: int) -> nat
    decreases at.len(),
{
    if at.len() == 0 {
        0
    } else {
        occurrences(at.drop_last(), x) + if at.last() == x {
            1nat
        } else {
            0nat
        }
    }
}

/// Dropping the first element takes away one occurrence of it and none of
/// anything else.
proof fn lemma_occurrences_drop_first(at: Seq<int>, x: int)
    requires
        at.len() > 0,
    ensures
        occurrences(at, x) == occurrences(at.drop_first(), x) + if at.first() == x {
            1nat
        } else {
            0nat
        },
    decreases at.len(),
{
    if at.len() == 1 {
        assert(at.drop_first() =~= Seq::<int>::empty());
        assert(at.drop_last() =~= Seq::<int>::empty());
    } else {
        lemma_occurrences_drop_first(at.drop_last(), x);
        assert(at.drop_last().drop_first() =~= at.drop_first().drop_last());
    }
}

/// In an ascending list nothing occurs twice.
proof fn lemma_occurrences_ascending(at: Seq<int>, x: int)
    requires
        ascending(at),
    ensures
        occurrences(at, x) == if at.contains(x) {
            1nat
        } else {
            0nat
        },
    decreases at.len(),
{
    if at.len() > 0 {
        let front = at.drop_last();
        lemma_occurrences_ascending(front, x);
        if front.contains(x) {
            let k = choose|k: int| 0 <= k < front.len() && front[k] == x;
            assert(at[k] == x);
            assert(at[k] < at[at.len() - 1]);
        }
        if at.contains(x) && at.last() != x {
            let k = choose|k: int| 0 <= k < at.len() && at[k] == x;
            assert(front[k] == x);
        }
        if at.last() == x {
            assert(at[at.len() - 1] == x);
        }
    }
}

/// Every element of the list is either handed out or kept back, as often
/// as it occurs.
proof fn lemma_pulls_split(at: Seq<int>, ends: Seq<bool>, x: int)
    ensures
        occurrences(handed_out(at, ends), x) + occurrences(kept_back(at, ends), x) == occurrences(
            at,
            x,
        ),
    decreases ends.len(),
{
    if ends.len() > 0 && at.len() > 0 {
        let got = handed_out(at, ends);
        lemma_occurrences_drop_first(got, x);
        if ends.first() {
            let later = handed_out(at.drop_first(), ends.drop_first());
            assert(got.drop_first() =~= later);
            lemma_pulls_split(at.drop_first(), ends.drop_first(), x);
            lemma_occurrences_drop_first(at, x);
        } else {
            let later = handed_out(at.drop_last(), ends.drop_first());
            assert(got.drop_first() =~= later);
            lemma_pulls_split(at.drop_last(), ends.drop_first(), x);
        }
    }
}

/// However pulls from the front and from the back are interleaved, every
/// position of `v` that holds `b` is handed out exactly once or is still
/// to come, never both, and no other position is ever handed out. The
/// traversal is exhausted exactly when as many pulls have been made as there
/// are such positions, and by then each of them has been handed out once.
pub proof fn lemma_each_position_once<T: Binary>(v: T, b: bool, ends: Seq<bool>, i: int)
    ensures
        ({
            let at = positions(v.pattern(), b);
            let got = handed_out(at, ends);
            let rest = kept_back(at, ends);
            &&& occurrences(got, i) + occurrences(rest, i) == if 0 <= i < T::width()
                && v.pattern()[i] == b {
                1nat
            } else {
                0nat
            }
            &&& got.len() + rest.len() == at.len()
            &&& rest.len() == 0 <==> ends.len() >= at.len()
        }),
{
    let at = positions(v.pattern(), b);
    T::lemma_width(v);
    lemma_positions(v.pattern(), b);
    lemma_pulls_split(at, ends, i);
    lemma_handed_out_len(at, ends);
    lemma_occurrences_ascending(at, i);
    if at.contains(i) {
        let k = choose|k: int| 0 <= k < at.len() && at[k] == i;
        assert(0 <= at[k] < v.pattern().len() && v.pattern()[at[k]] == b);
    }
}

/// `Bits` and `BitsRev` each hand out as many items as the value has bits,
/// and the items of one are those of the other in reverse order.
pub proof fn lemma_bits_both_ways<T: Binary>(v: T, k: int)
    requires
        0 <= k < T::width(),
    ensures
        v.pattern().len() == T::width(),
        v.pattern().reverse().len() == T::width(),
        v.pattern().reverse()[k] == v.pattern()[T::width() - 1 - k],
{
    T::lemma_width(v);
}

/// `ZERO` has no 1-bit to hand out and `FULL` no 0-bit, while `FULL` hands
/// out every position as a 1-bit and `ZERO` every position as a 0-bit,
/// lowest first.
pub proof fn lemma_boundary_values<T: Binary>()
    ensures
        positions(T::ZERO.pattern(), true) == Seq::<int>::empty(),
        positions(T::FULL.pattern(), false) == Seq::<int>::empty(),
        positions(T::FULL.pattern(), true) == Seq::new(T::width(), |i: int| i),
        positions(T::ZERO.pattern(), false) == Seq::new(T::width(), |i: int| i),
{
    T::lemma_constants();
    let all = Seq::new(T::width(), |i: int| i);
    let none = Seq::<int>::empty();
    assert forall|i: int| 0 <= i < T::width() implies all.contains(i) by {
        assert(all[i] == i);
    }
    assert(lists_positions(all, T::FULL.pattern(), true));
    assert(lists_positions(all, T::ZERO.pattern(), false));
    assert(lists_positions(none, T::ZERO.pattern(), true));
    assert(lists_positions(none, T::FULL.pattern(), false));
    lemma_positions_unique(all, T::FULL.pattern(), true);
    lemma_positions_unique(all, T::ZERO.pattern(), false);
    lemma_positions_unique(none, T::ZERO.pattern(), true);
    lemma_positions_unique(none, T::FULL.pattern(), false);
}

} // verus!
