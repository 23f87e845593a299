//! Bit patterns as mathematical sequences.
//!
//! A pattern is a `Seq<bool>` whose index is the bit position: index 0 is the
//! least significant bit, and `true` stands for a 1-bit. Everything the crate
//! promises about integers is stated over these sequences.

use vstd::prelude::*;

verus! {

/// The pattern of length `n` in which every position holds `b`.
pub open spec fn uniform(n: nat, b: bool) -> Seq<bool> {
    Seq::new(n, |i: int| b)
}

/// The pattern of length `n` whose only 1-bit is at position `i`.
///
/// When `i` lies outside `0..n` no position is set, so the result is all
/// zeros: this is how "no such bit" is represented.
pub open spec fn mask_at(n: nat, i: int) -> Seq<bool> {
    Seq::new(n, |j: int| j == i)
}

/// Position-wise AND.
pub open spec fn and_of(s: Seq<bool>, t: Seq<bool>) -> Seq<bool> {
    Seq::new(s.len(), |i: int| s[i] && t[i])
}

/// Position-wise OR.
pub open spec fn or_of(s: Seq<bool>, t: Seq<bool>) -> Seq<bool> {
    Seq::new(s.len(), |i: int| s[i] || t[i])
}

/// Position-wise XOR.
pub open spec fn xor_of(s: Seq<bool>, t: Seq<bool>) -> Seq<bool> {
    Seq::new(s.len(), |i: int| s[i] != t[i])
}

/// Position-wise complement.
pub open spec fn not_of(s: Seq<bool>) -> Seq<bool> {
    Seq::new(s.len(), |i: int| !s[i])
}

/// Moves every bit `k` positions towards the most significant end. Bits
/// pushed past the end are lost and zeros enter at the bottom.
pub open spec fn shift_up(s: Seq<bool>, k: nat) -> Seq<bool> {
    Seq::new(s.len(), |i: int| i >= k && s[i - k])
}

/// Moves every bit `k` positions towards the least significant end. Bits
/// pushed below position 0 are lost and zeros enter at the top.
pub open spec fn shift_down(s: Seq<bool>, k: nat) -> Seq<bool> {
    Seq::new(s.len(), |i: int| i + k < s.len() && s[i + k])
}

/// How many consecutive positions hold `b`, counting up from position 0.
pub open spec fn low_run(s: Seq<bool>, b: bool) -> nat
    decreases s.len(),
{
    if s.len() > 0 && s.first() == b {
        1 + low_run(s.drop_first(), b)
    } else {
        0
    }
}

/// How many consecutive positions hold `b`, counting down from the top
/// position.
pub open spec fn high_run(s: Seq<bool>, b: bool) -> nat
    decreases s.len(),
{
    if s.len() > 0 && s.last() == b {
        1 + high_run(s.drop_last(), b)
    } else {
        0
    }
}

/// The positions of `s` that hold `b`, in ascending order.
pub open spec fn positions(s: Seq<bool>, b: bool) -> Seq<int>
    decreases s.len(),
{
    if s.len() == 0 {
        Seq::empty()
    } else if s.last() == b {
        positions(s.drop_last(), b).push(s.len() - 1)
    } else {
        positions(s.drop_last(), b)
    }
}

/// `r` is the length of the run of `b` at the bottom of `s`: the run fits in
/// `s`, every position below `r` holds `b`, and position `r`, if there is
/// one, does not.
pub open spec fn is_low_run(s: Seq<bool>, b: bool, r: int) -> bool {
    &&& 0 <= r <= s.len()
    &&& forall|j: int| 0 <= j < r ==> s[j] == b
    &&& r < s.len() ==> s[r] != b
}

/// `r` is the length of the run of `b` at the top of `s`.
pub open spec fn is_high_run(s: Seq<bool>, b: bool, r: int) -> bool {
    &&& 0 <= r <= s.len()
    &&& forall|j: int| s.len() - r <= j < s.len() ==> s[j] == b
    &&& r < s.len() ==> s[s.len() - 1 - r] != b
}

/// Each element is smaller than all that follow it.
pub open spec fn ascending(at: Seq<int>) -> bool {
    forall|k: int, l: int| 0 <= k < l < at.len() ==> at[k] < at[l]
}

/// `p` lists exactly the positions of `s` that hold `b`, each once, in
/// ascending order.
pub open spec fn lists_positions(p: Seq<int>, s: Seq<bool>, b: bool) -> bool {
    &&& forall|k: int| 0 <= k < p.len() ==> 0 <= #[trigger] p[k] < s.len() && s[p[k]] == b
    &&& ascending(p)
    &&& forall|i: int| 0 <= i < s.len() && s[i] == b ==> p.contains(i)
}

/// `low_run` computes the run that `is_low_run` describes.
pub proof fn lemma_low_run(s: Seq<bool>, b: bool)
    ensures
        is_low_run(s, b, low_run(s, b) as int),
    decreases s.len(),
{
    if s.len() > 0 && s.first() == b {
        let t = s.drop_first();
        lemma_low_run(t, b);
        let r = low_run(s, b) as int;
        assert forall|j: int| 0 <= j < r implies s[j] == b by {
            if j > 0 {
                assert(s[j] == t[j - 1]);
            }
        }
        if r < s.len() {
            assert(s[r] == t[r - 1]);
        }
    }
}

/// A bottom run has only one possible length.
pub proof fn lemma_low_run_unique(s: Seq<bool>, b: bool, r: int)
    requires
        is_low_run(s, b, r),
    ensures
        r == low_run(s, b),
{
    lemma_low_run(s, b);
    let q = low_run(s, b) as int;
    if r < q {
        assert(s[r] == b);
    } else if q < r {
        assert(s[q] == b);
    }
}

/// `high_run` computes the run that `is_high_run` describes.
pub proof fn lemma_high_run(s: Seq<bool>, b: bool)
    ensures
        is_high_run(s, b, high_run(s, b) as int),
    decreases s.len(),
{
    if s.len() > 0 && s.last() == b {
        let t = s.drop_last();
        lemma_high_run(t, b);
        let r = high_run(s, b) as int;
        assert forall|j: int| s.len() - r <= j < s.len() implies s[j] == b by {
            if j < s.len() - 1 {
                assert(s[j] == t[j]);
            }
        }
        if r < s.len() {
            assert(s[s.len() - 1 - r] == t[t.len() - 1 - (r - 1)]);
        }
    }
}

/// A top run has only one possible length.
pub proof fn lemma_high_run_unique(s: Seq<bool>, b: bool, r: int)
    requires
        is_high_run(s, b, r),
    ensures
        r == high_run(s, b),
{
    lemma_high_run(s, b);
    let q = high_run(s, b) as int;
    if r < q {
        assert(s[s.len() - 1 - r] == b);
    } else if q < r {
        assert(s[s.len() - 1 - q] == b);
    }
}

/// A run of `b` in the complement of `s` is a run of `!b` in `s`.
pub proof fn lemma_runs_of_complement(s: Seq<bool>, b: bool)
    ensures
        low_run(not_of(s), b) == low_run(s, !b),
        high_run(not_of(s), b) == high_run(s, !b),
{
    lemma_low_run(s, !b);
    lemma_low_run_unique(not_of(s), b, low_run(s, !b) as int);
    lemma_high_run(s, !b);
    lemma_high_run_unique(not_of(s), b, high_run(s, !b) as int);
}

/// `positions` computes the list that `lists_positions` describes.
pub proof fn lemma_positions(s: Seq<bool>, b: bool)
    ensures
        lists_positions(positions(s, b), s, b),
    decreases s.len(),
{
    let p = positions(s, b);
    if s.len() > 0 {
        let t = s.drop_last();
        let q = positions(t, b);
        lemma_positions(t, b);
        assert forall|k: int| 0 <= k < p.len() implies 0 <= #[trigger] p[k] < s.len() && s[p[k]]
            == b by {
            if k < q.len() {
                assert(p[k] == q[k]);
                assert(t[q[k]] == s[q[k]]);
            }
        }
        assert forall|k: int, l: int| 0 <= k < l < p.len() implies p[k] < p[l] by {
            assert(p[k] == q[k]);
            if l < q.len() {
                assert(p[l] == q[l]);
            }
        }
        assert forall|i: int| 0 <= i < s.len() && s[i] == b implies p.contains(i) by {
            if i < t.len() {
                assert(t[i] == s[i]);
                let k = choose|k: int| 0 <= k < q.len() && q[k] == i;
                assert(p[k] == i);
            } else {
                assert(p[p.len() - 1] == i);
            }
        }
    }
}

/// Two ascending lists with the same members are the same list.
proof fn lemma_ascending_same_members(p: Seq<int>, q: Seq<int>)
    requires
        ascending(p),
        ascending(q),
        forall|x: int| p.contains(x) <==> q.contains(x),
    ensures
        p == q,
    decreases p.len(),
{
    if p.len() == 0 {
        if q.len() > 0 {
            assert(q.contains(q[0]));
        }
        assert(p =~= q);
    } else {
        let x = p.last();
        assert(p.contains(x));
        let m = choose|m: int| 0 <= m < q.len() && q[m] == x;
        let y = q.last();
        assert(q.contains(y));
        let n = choose|n: int| 0 <= n < p.len() && p[n] == y;
        assert(x == y);
        let p_rest = p.drop_last();
        let q_rest = q.drop_last();
        assert forall|z: int| p_rest.contains(z) <==> q_rest.contains(z) by {
            if p_rest.contains(z) {
                let k = choose|k: int| 0 <= k < p_rest.len() && p_rest[k] == z;
                assert(p[k] == z);
                assert(p.contains(z));
                let l = choose|l: int| 0 <= l < q.len() && q[l] == z;
                assert(q_rest[l] == z);
            }
            if q_rest.contains(z) {
                let k = choose|k: int| 0 <= k < q_rest.len() && q_rest[k] == z;
                assert(q[k] == z);
                assert(q.contains(z));
                let l = choose|l: int| 0 <= l < p.len() && p[l] == z;
                assert(p_rest[l] == z);
            }
        }
        lemma_ascending_same_members(p_rest, q_rest);
        assert(p =~= p_rest.push(x));
        assert(q =~= q_rest.push(y));
    }
}

/// Only one list meets `lists_positions`.
pub proof fn lemma_positions_unique(p: Seq<int>, s: Seq<bool>, b: bool)
    requires
        lists_positions(p, s, b),
    ensures
        p == positions(s, b),
{
    let q = positions(s, b);
    lemma_positions(s, b);
    assert forall|x: int| p.contains(x) <==> q.contains(x) by {
        if p.contains(x) {
            let k = choose|k: int| 0 <= k < p.len() && p[k] == x;
            assert(0 <= p[k] < s.len() && s[p[k]] == b);
        }
        if q.contains(x) {
            let k = choose|k: int| 0 <= k < q.len() && q[k] == x;
            assert(0 <= q[k] < s.len() && s[q[k]] == b);
        }
    }
    lemma_ascending_same_members(p, q);
}

/// The list of positions is empty exactly when no position holds `b`.
pub proof fn lemma_positions_empty(s: Seq<bool>, b: bool)
    ensures
        positions(s, b).len() == 0 <==> s == uniform(s.len(), !b),
{
    let p = positions(s, b);
    lemma_positions(s, b);
    if p.len() == 0 {
        assert forall|i: int| 0 <= i < s.len() implies s[i] == !b by {
            if s[i] == b {
                assert(p.contains(i));
            }
        }
        assert(s =~= uniform(s.len(), !b));
    } else {
        assert(s[p[0]] == b);
    }
}

/// The first listed position is where the bottom run of `!b` ends, and
/// overwriting it with `!b` removes it from the front of the list.
pub proof fn lemma_positions_pop_front(s: Seq<bool>, b: bool)
    requires
        positions(s, b).len() > 0,
    ensures
        positions(s, b).first() == low_run(s, !b),
        positions(s.update(low_run(s, !b) as int, !b), b) == positions(s, b).drop_first(),
{
    let p = positions(s, b);
    let i = low_run(s, !b) as int;
    lemma_positions(s, b);
    lemma_low_run(s, !b);
    assert(s[p[0]] == b);
    assert(i < s.len());
    assert(p.contains(i));
    let m = choose|m: int| 0 <= m < p.len() && p[m] == i;
    assert(p[0] == i);
    let t = s.update(i, !b);
    let q = p.drop_first();
    assert forall|k: int| 0 <= k < q.len() implies 0 <= #[trigger] q[k] < t.len() && t[q[k]]
        == b by {
        assert(q[k] == p[k + 1]);
        assert(p[0] < p[k + 1]);
    }
    assert forall|k: int, l: int| 0 <= k < l < q.len() implies q[k] < q[l] by {
        assert(q[k] == p[k + 1]);
        assert(q[l] == p[l + 1]);
    }
    assert forall|j: int| 0 <= j < t.len() && t[j] == b implies q.contains(j) by {
        assert(s[j] == b);
        assert(p.contains(j));
        let k = choose|k: int| 0 <= k < p.len() && p[k] == j;
        assert(q[k - 1] == j);
    }
    lemma_positions_unique(q, t, b);
}

/// The last listed position is where the top run of `!b` ends, and
/// overwriting it with `!b` removes it from the back of the list.
pub proof fn lemma_positions_pop_back(s: Seq<bool>, b: bool)
    requires
        positions(s, b).len() > 0,
    ensures
        positions(s, b).last() == s.len() - 1 - high_run(s, !b),
        positions(s.update(s.len() - 1 - high_run(s, !b), !b), b) == positions(s, b).drop_last(),
{
    let p = positions(s, b);
    let i = s.len() - 1 - high_run(s, !b);
    lemma_positions(s, b);
    lemma_high_run(s, !b);
    assert(s[p[0]] == b);
    assert(0 <= i);
    assert(p.contains(i));
    let m = choose|m: int| 0 <= m < p.len() && p[m] == i;
    let e = p.len() - 1;
    assert(s[p[e]] == b);
    assert(p[e] == i);
    let t = s.update(i, !b);
    let q = p.drop_last();
    assert forall|k: int| 0 <= k < q.len() implies 0 <= #[trigger] q[k] < t.len() && t[q[k]]
        == b by {
        assert(q[k] == p[k]);
        assert(p[k] < p[e]);
    }
    assert forall|k: int, l: int| 0 <= k < l < q.len() implies q[k] < q[l] by {
        assert(q[k] == p[k]);
        assert(q[l] == p[l]);
    }
    assert forall|j: int| 0 <= j < t.len() && t[j] == b implies q.contains(j) by {
        assert(s[j] == b);
        assert(p.contains(j));
        let k = choose|k: int| 0 <= k < p.len() && p[k] == j;
        assert(q[k] == j);
    }
    lemma_positions_unique(q, t, b);
}

} // verus!
