//! The pluggable state-value function: a linear map from boards to a
//! fixed-point value, together with the exact-gradient update that
//! temporal-difference training uses. Every variant evaluates a board by
//! summing weight-table entries at feature slots, and learns by adding the
//! per-slot share of a delta to every touched entry.

use vstd::prelude::*;
use vstd::arithmetic::div_mod::lemma_div_is_ordered;
use crate::board::Board;

pub mod legacy;
pub mod n_tuple_medium;
pub mod n_tuple_small;

verus! {

/// An integer clamped to the `i64` range.
pub open spec fn clamp_i64(x: int) -> int {
    if x > i64::MAX {
        i64::MAX as int
    } else if x < i64::MIN {
        i64::MIN as int
    } else {
        x
    }
}

/// Division truncated toward zero, for a positive divisor.
pub open spec fn tdiv(a: int, d: int) -> int {
    if a >= 0 {
        a / d
    } else {
        -((-a) / d)
    }
}

/// How often a slot index occurs in a slot list.
pub open spec fn cnt_slots(l: Seq<u16>, j: int) -> int
    decreases l.len()
{
    if l.len() == 0 {
        0
    } else {
        (if l[0] == j {
            1int
        } else {
            0
        }) + cnt_slots(l.drop_first(), j)
    }
}

/// The sum of the weight-table entries at a list of slots.
pub open spec fn sum_slots(w: Seq<i64>, l: Seq<u16>) -> int
    decreases l.len()
{
    if l.len() == 0 {
        0
    } else {
        w[l[0] as int] + sum_slots(w, l.drop_first())
    }
}

/// How many slot occurrences two boards share: for each slot of the second
/// list, the number of times it occurs in the first.
pub open spec fn dot_slots(lb: Seq<u16>, le: Seq<u16>) -> int
    decreases le.len()
{
    if le.len() == 0 {
        0
    } else {
        cnt_slots(lb, le[0] as int) + dot_slots(lb, le.drop_first())
    }
}

/// The occurrence count is between zero and the list length, and zero
/// exactly when the index is absent.
pub proof fn lemma_cnt_slots_facts(l: Seq<u16>, j: int)
    ensures
        0 <= cnt_slots(l, j) <= l.len(),
        (cnt_slots(l, j) == 0 <==> (forall|z: int| 0 <= z < l.len() ==> l[z] != j)),
    decreases l.len()
{
    if l.len() > 0 {
        lemma_cnt_slots_facts(l.drop_first(), j);
        assert(forall|z: int| 0 <= z < l.drop_first().len() ==> l.drop_first()[z] == l[z + 1]);
        if cnt_slots(l, j) == 0 {
            assert forall|z: int| 0 <= z < l.len() implies l[z] != j by {
                if z > 0 {
                    assert(l.drop_first()[z - 1] != j);
                }
            }
        }
    }
}

/// Appending a slot to a list raises its count by one for that index and
/// leaves other counts alone.
pub proof fn lemma_cnt_slots_push(l: Seq<u16>, x: u16, j: int)
    ensures
        cnt_slots(l.push(x), j) == cnt_slots(l, j) + (if x == j {
            1int
        } else {
            0
        }),
    decreases l.len()
{
    if l.len() == 0 {
        assert(l.push(x).drop_first() =~= l);
    } else {
        assert(l.push(x).drop_first() =~= l.drop_first().push(x));
        lemma_cnt_slots_push(l.drop_first(), x, j);
    }
}

/// Appending a slot adds its entry to the slot sum.
pub proof fn lemma_sum_slots_push(w: Seq<i64>, l: Seq<u16>, x: u16)
    ensures
        sum_slots(w, l.push(x)) == sum_slots(w, l) + w[x as int],
    decreases l.len()
{
    if l.len() == 0 {
        assert(l.push(x).drop_first() =~= l);
    } else {
        assert(l.push(x).drop_first() =~= l.drop_first().push(x));
        lemma_sum_slots_push(w, l.drop_first(), x);
    }
}

/// A slot sum is bounded by the list length times the weight range.
pub proof fn lemma_sum_slots_bound(w: Seq<i64>, l: Seq<u16>)
    ensures
        -(l.len() * 0x8000_0000_0000_0000) <= sum_slots(w, l) <= l.len() * 0x8000_0000_0000_0000,
    decreases l.len()
{
    if l.len() > 0 {
        lemma_sum_slots_bound(w, l.drop_first());
    }
}

/// The slot sum over all-zero weights is zero.
pub proof fn lemma_sum_slots_zero(w: Seq<i64>, l: Seq<u16>)
    requires
        forall|j: int| 0 <= j < w.len() ==> w[j] == 0,
        forall|p: int| 0 <= p < l.len() ==> (l[p] as int) < w.len(),
    ensures
        sum_slots(w, l) == 0,
    decreases l.len()
{
    if l.len() > 0 {
        assert(forall|p: int|
            0 <= p < l.drop_first().len() ==> l.drop_first()[p] == l[p + 1]);
        lemma_sum_slots_zero(w, l.drop_first());
    }
}

/// The exact-gradient law: when a learning step adds `cnt * q` to every
/// entry without clamping, any slot sum moves by the shared-occurrence
/// count times `q`.
pub proof fn lemma_learn_then_eval(w_pre: Seq<i64>, w_post: Seq<i64>, lb: Seq<u16>, le: Seq<u16>, q: i64)
    requires
        w_post.len() == w_pre.len(),
        forall|j: int|
            0 <= j < w_pre.len() ==> w_post[j] == clamp_i64(w_pre[j] + cnt_slots(lb, j) * q),
        forall|j: int|
            0 <= j < w_pre.len() ==> i64::MIN <= w_pre[j] + #[trigger] cnt_slots(lb, j) * q
                <= i64::MAX,
        forall|p: int| 0 <= p < le.len() ==> (le[p] as int) < w_pre.len(),
    ensures
        sum_slots(w_post, le) == sum_slots(w_pre, le) + dot_slots(lb, le) * q,
    decreases le.len()
{
    if le.len() == 0 {
    } else {
        assert(forall|p: int|
            0 <= p < le.drop_first().len() ==> le.drop_first()[p] == le[p + 1]);
        lemma_learn_then_eval(w_pre, w_post, lb, le.drop_first(), q);
        let j0 = le[0] as int;
        assert(w_post[j0] == w_pre[j0] + cnt_slots(lb, j0) * q);
        assert((cnt_slots(lb, j0) + dot_slots(lb, le.drop_first())) * q == cnt_slots(lb, j0) * q
            + dot_slots(lb, le.drop_first()) * q) by (nonlinear_arith);
    }
}

/// A list of pairwise distinct slots shares exactly one occurrence with
/// itself per slot.
pub proof fn lemma_dot_self_distinct(l: Seq<u16>)
    requires
        forall|p: int, z: int| 0 <= p < z < l.len() ==> l[p] != l[z],
    ensures
        dot_slots(l, l) == l.len(),
{
    lemma_dot_distinct_aux(l, 0);
    assert(l.skip(0) =~= l);
}

/// Helper: the dot of a distinct list with its suffix from `k` counts one
/// per suffix slot.
proof fn lemma_dot_distinct_aux(l: Seq<u16>, k: int)
    requires
        0 <= k <= l.len(),
        forall|p: int, z: int| 0 <= p < z < l.len() ==> l[p] != l[z],
    ensures
        dot_slots(l, l.skip(k)) == l.len() - k,
    decreases l.len() - k
{
    if k < l.len() {
        lemma_dot_distinct_aux(l, k + 1);
        assert(l.skip(k).drop_first() =~= l.skip(k + 1));
        assert(l.skip(k)[0] == l[k]);
        let j = l[k] as int;
        lemma_cnt_distinct(l, j);
        assert(exists|z: int| 0 <= z < l.len() && l[z] == j) by {
            assert(0 <= k < l.len() && l[k] == j);
        }
    }
}

/// In a pairwise distinct list, every index occurs at most once, and an
/// index that occurs, occurs exactly once.
proof fn lemma_cnt_distinct(l: Seq<u16>, j: int)
    requires
        forall|p: int, z: int| 0 <= p < z < l.len() ==> l[p] != l[z],
    ensures
        cnt_slots(l, j) == (if exists|z: int| 0 <= z < l.len() && l[z] == j {
            1int
        } else {
            0
        }),
    decreases l.len()
{
    if l.len() > 0 {
        assert(forall|p: int| 0 <= p < l.drop_first().len() ==> l.drop_first()[p] == l[p + 1]);
        lemma_cnt_distinct(l.drop_first(), j);
        if l[0] == j {
            lemma_cnt_slots_facts(l.drop_first(), j);
            assert(forall|z: int| 0 <= z < l.drop_first().len() ==> l.drop_first()[z] != j);
        } else {
            if exists|z: int| 0 <= z < l.len() && l[z] == j {
                let z = choose|z: int| 0 <= z < l.len() && l[z] == j;
                assert(l.drop_first()[z - 1] == j);
            }
        }
    }
}

/// The quotient of a 64-bit value by a divisor of at least 16 stays well
/// inside the range the update step multiplies by a count.
pub proof fn lemma_tdiv_small(a: i64, d: i64)
    requires
        d >= 16,
    ensures
        -0x0800_0000_0000_0000 <= tdiv(a as int, d as int) <= 0x0800_0000_0000_0000,
{
    if a >= 0 {
        lemma_div_is_ordered(a as int, 0x7fff_ffff_ffff_ffff, 16);
        lemma_div_divides_smaller(a as int, d as int, 16);
        vstd::arithmetic::div_mod::lemma_div_pos_is_pos(a as int, d as int);
    } else {
        vstd::arithmetic::div_mod::lemma_div_pos_is_pos(-(a as int), d as int);
        lemma_div_divides_smaller(-(a as int), d as int, 16);
        lemma_div_is_ordered(-(a as int), 0x8000_0000_0000_0000, 16);
    }
}

/// Truncating division never grows the magnitude.
pub proof fn lemma_tdiv_abs(a: int, d: int)
    requires
        d >= 1,
    ensures
        a >= 0 ==> 0 <= tdiv(a, d) <= a,
        a < 0 ==> a <= tdiv(a, d) <= 0,
{
    if a >= 0 {
        vstd::arithmetic::div_mod::lemma_div_nonincreasing(a, d);
        vstd::arithmetic::div_mod::lemma_div_pos_is_pos(a, d);
    } else {
        vstd::arithmetic::div_mod::lemma_div_nonincreasing(-a, d);
        vstd::arithmetic::div_mod::lemma_div_pos_is_pos(-a, d);
    }
}

/// A weight table of a given size, all zero.
pub fn zero_table(n: usize) -> (r: Vec<i64>)
    ensures
        r@.len() == n,
        forall|j: int| 0 <= j < n ==> r@[j] == 0,
{
    let mut v: Vec<i64> = Vec::new();
    let mut i: usize = 0;
    while i < n
        invariant
            i <= n,
            v@.len() == i,
            forall|j: int| 0 <= j < i ==> v@[j] == 0,
        decreases n - i
    {
        v.push(0);
        i = i + 1;
    }
    v
}

/// Saturating addition of a wide addend to an `i64` entry.
fn sat_add_wide(a: i64, b: i128) -> (r: i64)
    requires
        -0x1_0000_0000_0000_0000 <= b <= 0x1_0000_0000_0000_0000,
    ensures
        r == clamp_i64(a + b),
{
    let s: i128 = (a as i128) + b;
    if s > (i64::MAX as i128) {
        i64::MAX
    } else if s < (i64::MIN as i128) {
        i64::MIN
    } else {
        s as i64
    }
}

/// Division truncated toward zero, as the learning-rate split uses it.
pub fn div_toward_zero(a: i64, d: i64) -> (r: i64)
    requires
        1 <= d,
    ensures
        r == tdiv(a as int, d as int),
        d >= 16 ==> -0x0800_0000_0000_0000 <= r <= 0x0800_0000_0000_0000,
{
    proof {
        if a >= 0 {
            lemma_div_is_ordered(a as int, 0x7fff_ffff_ffff_ffff, d as int);
            if d >= 16 {
                lemma_div_is_ordered(a as int, 0x7fff_ffff_ffff_ffff, 16);
                lemma_div_divides_smaller(a as int, d as int, 16);
            }
            vstd::arithmetic::div_mod::lemma_div_pos_is_pos(a as int, d as int);
        } else {
            vstd::arithmetic::div_mod::lemma_div_pos_is_pos(-(a as int), d as int);
            if d >= 16 {
                lemma_div_divides_smaller(-(a as int), d as int, 16);
                lemma_div_is_ordered(-(a as int), 0x8000_0000_0000_0000, 16);
            }
            lemma_div_is_ordered(-(a as int), 0x8000_0000_0000_0000, d as int);
        }
    }
    if a >= 0 {
        (((a as u64) / (d as u64)) as i64)
    } else {
        let m: u64 = (-(a as i128)) as u64;
        let q: u64 = m / (d as u64);
        (-(q as i128)) as i64
    }
}

/// A larger divisor gives a quotient no larger, for non-negative
/// numerators.
proof fn lemma_div_divides_smaller(x: int, d: int, e: int)
    requires
        x >= 0,
        d >= e >= 1,
    ensures
        x / d <= x / e,
{
    vstd::arithmetic::div_mod::lemma_div_is_ordered_by_denominator(x, e, d);
}

/// Adds `cnt(slots, j) * q` to every entry `j` of a weight table,
/// saturating at the `i64` range: the per-slot share of a learning delta
/// lands once per occurrence.
pub fn apply_updates(w: &mut Vec<i64>, slots: &Vec<u16>, q: i64)
    requires
        slots@.len() <= 16,
        forall|p: int| 0 <= p < slots@.len() ==> (slots@[p] as int) < old(w)@.len(),
        -0x0800_0000_0000_0000 <= q <= 0x0800_0000_0000_0000,
    ensures
        final(w)@.len() == old(w)@.len(),
        forall|j: int|
            0 <= j < final(w)@.len() ==> final(w)@[j] == clamp_i64(
                old(w)@[j] + cnt_slots(slots@, j) * q,
            ),
{
    let ghost w0 = w@;
    let mut p: usize = 0;
    while p < slots.len()
        invariant
            p <= slots@.len(),
            slots@.len() <= 16,
            forall|z: int| 0 <= z < slots@.len() ==> (slots@[z] as int) < w0.len(),
            -0x0800_0000_0000_0000 <= q <= 0x0800_0000_0000_0000,
            w@.len() == w0.len(),
            forall|j: int|
                0 <= j < w@.len() && (exists|z: int| 0 <= z < p && slots@[z] == j) ==> w@[j]
                    == clamp_i64(w0[j] + cnt_slots(slots@, j) * q),
            forall|j: int|
                0 <= j < w@.len() && !(exists|z: int| 0 <= z < p && slots@[z] == j) ==> w@[j]
                    == w0[j],
        decreases slots@.len() - p
    {
        let idx = slots[p];
        let mut seen = false;
        let mut t: usize = 0;
        while t < p
            invariant
                t <= p,
                p < slots@.len(),
                idx == slots@[p as int],
                seen == (exists|z: int| 0 <= z < t && slots@[z] == idx),
            decreases p - t
        {
            if slots[t] == idx {
                seen = true;
            }
            t = t + 1;
        }
        if !seen {
            let k = count_slot(slots, idx);
            proof {
                lemma_cnt_slots_facts(slots@, idx as int);
                assert((k as i128) * (q as i128) <= 16 * 0x0800_0000_0000_0000
                    && (k as i128) * (q as i128) >= -(16 * 0x0800_0000_0000_0000))
                    by (nonlinear_arith)
                    requires 0 <= k <= 16, -0x0800_0000_0000_0000 <= q <= 0x0800_0000_0000_0000
                ;
            }
            let add = (k as i128) * (q as i128);
            let j = idx as usize;
            let cur = w[j];
            let newv = sat_add_wide(cur, add);
            w.set(j, newv);
            proof {
                assert(w@[idx as int] == clamp_i64(w0[idx as int] + cnt_slots(slots@, idx as int)
                    * q));
            }
        }
        p = p + 1;
        proof {
            assert forall|j: int|
                0 <= j < w@.len() && (exists|z: int| 0 <= z < p && slots@[z] == j) implies w@[j]
                == clamp_i64(w0[j] + cnt_slots(slots@, j) * q) by {
                let z = choose|z: int| 0 <= z < p && slots@[z] == j;
                if z == p - 1 && !(exists|zz: int| 0 <= zz < p - 1 && slots@[zz] == j) {
                } else {
                    assert(exists|zz: int| 0 <= zz < p - 1 && slots@[zz] == j);
                }
            }
        }
    }
    proof {
        assert forall|j: int| 0 <= j < w@.len() implies w@[j] == clamp_i64(w0[j] + cnt_slots(
            slots@,
            j,
        ) * q) by {
            if !(exists|z: int| 0 <= z < slots@.len() && slots@[z] == j) {
                lemma_cnt_slots_facts(slots@, j);
                assert forall|z: int| 0 <= z < slots@.len() implies slots@[z] != j by {
                    if slots@[z] == j {
                        assert(exists|zz: int| 0 <= zz < slots@.len() && slots@[zz] == j);
                    }
                }
                assert(cnt_slots(slots@, j) == 0);
                assert(cnt_slots(slots@, j) * q == 0) by (nonlinear_arith)
                    requires cnt_slots(slots@, j) == 0
                ;
                assert(w@[j] == w0[j]);
            }
        }
    }
}

/// How often one slot index occurs in the slot list.
fn count_slot(slots: &Vec<u16>, idx: u16) -> (k: u64)
    requires
        slots@.len() <= 16,
    ensures
        k == cnt_slots(slots@, idx as int),
        k <= 16,
{
    let mut k: u64 = 0;
    let mut t: usize = 0;
    while t < slots.len()
        invariant
            t <= slots@.len(),
            slots@.len() <= 16,
            k == cnt_slots(slots@.subrange(0, t as int), idx as int),
            k <= t,
        decreases slots@.len() - t
    {
        proof {
            lemma_cnt_slots_facts(slots@.subrange(0, t as int), idx as int);
            lemma_cnt_slots_push(slots@.subrange(0, t as int), slots@[t as int], idx as int);
            assert(slots@.subrange(0, t as int).push(slots@[t as int]) =~= slots@.subrange(
                0,
                t as int + 1,
            ));
        }
        if slots[t] == idx {
            k = k + 1;
        }
        t = t + 1;
    }
    proof {
        assert(slots@.subrange(0, slots@.len() as int) =~= slots@);
    }
    k
}

/// The sum of the weight-table entries at the given slots, computed
/// without overflow in a wide accumulator.
pub fn sum_weights(w: &Vec<i64>, slots: &Vec<u16>) -> (r: i128)
    requires
        slots@.len() <= 16,
        forall|p: int| 0 <= p < slots@.len() ==> (slots@[p] as int) < w@.len(),
    ensures
        r == sum_slots(w@, slots@),
        -(16 * 0x8000_0000_0000_0000) <= r <= 16 * 0x8000_0000_0000_0000,
{
    let mut acc: i128 = 0;
    let mut t: usize = 0;
    while t < slots.len()
        invariant
            t <= slots@.len(),
            slots@.len() <= 16,
            forall|p: int| 0 <= p < slots@.len() ==> (slots@[p] as int) < w@.len(),
            acc == sum_slots(w@, slots@.subrange(0, t as int)),
            -((t as int) * 0x8000_0000_0000_0000) <= acc <= (t as int) * 0x8000_0000_0000_0000,
        decreases slots@.len() - t
    {
        proof {
            lemma_sum_slots_push(w@, slots@.subrange(0, t as int), slots@[t as int]);
            assert(slots@.subrange(0, t as int).push(slots@[t as int]) =~= slots@.subrange(
                0,
                t as int + 1,
            ));
        }
        acc = acc + (w[slots[t] as usize] as i128);
        t = t + 1;
    }
    proof {
        assert(slots@.subrange(0, slots@.len() as int) =~= slots@);
        lemma_sum_slots_bound(w@, slots@);
    }
    acc
}

/// Division truncated toward zero on wide values, used for the
/// expectation step.
pub fn tdiv_wide(a: i128, d: i128) -> (r: i128)
    requires
        d >= 1,
        -0x4000_0000_0000_0000_0000_0000_0000_0000 < a,
    ensures
        r == tdiv(a as int, d as int),
{
    if a >= 0 {
        (((a as u128) / (d as u128)) as i128)
    } else {
        let m: u128 = (-a) as u128;
        let q: u128 = m / (d as u128);
        proof {
            lemma_div_is_ordered(q as int, m as int, 1);
            vstd::arithmetic::div_mod::lemma_div_nonincreasing(m as int, d as int);
        }
        -(q as i128)
    }
}

/// A weight set: the serialisable coefficients a value function owns, with
/// a well-defined all-zero default.
pub trait Weights: Sized {
    /// The structural invariant of the weight set: its tables have their
    /// full size.
    spec fn wf(&self) -> bool;

    /// Every coefficient is zero.
    spec fn is_zero(&self) -> bool;

    /// The all-zero weight set.
    fn zero() -> (r: Self)
        ensures
            r.wf(),
            r.is_zero(),
    ;
}

/// A state-value function: a linear map from boards to fixed-point values
/// with an exact-gradient learning step.
pub trait VFunction: Sized {
    type Weights: Weights;

    /// The structural invariant of the function's tables.
    spec fn wf(&self) -> bool;

    /// Every weight is zero.
    spec fn is_zero(&self) -> bool;

    /// The value of a board: the sum of the weights at its feature slots.
    spec fn eval_spec(&self, b: u64) -> int;

    /// The exact effect of one learning step: every weight entry moves by
    /// its occurrence count among the board's feature slots times the
    /// per-slot share of the delta, saturating at the `i64` range.
    spec fn learn_rel(pre: Self, b: u64, delta: i64, post: Self) -> bool;

    /// The weight set the function currently holds.
    spec fn weights_view(&self) -> Self::Weights;

    /// Wraps a weight set.
    fn new(weights: Self::Weights) -> (r: Self)
        requires
            weights.wf(),
        ensures
            r.wf(),
            r.weights_view() == weights,
            weights.is_zero() ==> r.is_zero(),
    ;

    /// The value of any board is far inside the search's value ceiling:
    /// it is a sum of at most 32 table entries.
    proof fn lemma_eval_bound(&self, b: u64)
        requires
            self.wf(),
        ensures
            -0x20_0000_0000_0000_0000 < self.eval_spec(b) < 0x20_0000_0000_0000_0000,
    ;

    /// Evaluates a board.
    fn eval(&self, state: &Board) -> (r: i128)
        requires
            self.wf(),
        ensures
            r == self.eval_spec(state.0),
            -0x20_0000_0000_0000_0000 < r < 0x20_0000_0000_0000_0000,
    ;

    /// Distributes `delta`, split evenly over the feature slots, onto
    /// every touched weight.
    fn learn(&mut self, state: &Board, delta: i64)
        requires
            old(self).wf(),
        ensures
            final(self).wf(),
            Self::learn_rel(*old(self), state.0, delta, *final(self)),
    ;

    /// Relinquishes the weights for serialisation.
    fn into_weights(self) -> (w: Self::Weights)
        requires
            self.wf(),
        ensures
            w.wf(),
            w == self.weights_view(),
            self.is_zero() ==> w.is_zero(),
    ;
}

} // verus!
