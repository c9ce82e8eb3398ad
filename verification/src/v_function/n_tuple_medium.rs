//! The medium n-tuple value function: two whole-line tables indexed by
//! the raw 16-bit packing of a row or column, one for the outer lines and
//! one for the inner lines. Each line contributes its raw index and its
//! reversed index, enforcing left-right symmetry; 16 feature slots in all.

use vstd::prelude::*;
use crate::board::{board_col, board_row, brow16, Board};
use crate::row::{lemma_pack_row_tiles, pack_row, rev4, row_tiles, valid_tiles};
use crate::v_function::{
    apply_updates, clamp_i64, cnt_slots, div_toward_zero, dot_slots, lemma_dot_self_distinct,
    lemma_learn_then_eval, lemma_sum_slots_zero, lemma_tdiv_abs, lemma_tdiv_small, sum_slots,
    sum_weights, tdiv, zero_table, VFunction, Weights,
};

verus! {

/// The packed bits of a board column.
pub open spec fn col16(b: u64, x: int) -> u16 {
    pack_row(board_col(b, x))
}

/// The packed bits of a row reversed.
pub open spec fn rev16(r: u16) -> u16 {
    pack_row(rev4(row_tiles(r)))
}

/// The outer feature slots: rows and columns 0 and 3, each raw and
/// reversed, as whole-line table indices.
pub open spec fn outer_tuples(b: u64) -> Seq<u16> {
    seq![
        brow16(b, 0),
        rev16(brow16(b, 0)),
        col16(b, 0),
        rev16(col16(b, 0)),
        brow16(b, 3),
        rev16(brow16(b, 3)),
        col16(b, 3),
        rev16(col16(b, 3)),
    ]
}

/// The inner feature slots: rows and columns 1 and 2, each raw and
/// reversed.
pub open spec fn inner_tuples(b: u64) -> Seq<u16> {
    seq![
        brow16(b, 1),
        rev16(brow16(b, 1)),
        col16(b, 1),
        rev16(col16(b, 1)),
        brow16(b, 2),
        rev16(brow16(b, 2)),
        col16(b, 2),
        rev16(col16(b, 2)),
    ]
}

/// The weight set of the medium n-tuple function: one table entry per
/// possible line, for outer and inner lines separately.
pub struct NTupleMediumWeights {
    pub outer: Vec<i64>,
    pub inner: Vec<i64>,
}

impl Weights for NTupleMediumWeights {
    open spec fn wf(&self) -> bool {
        self.outer@.len() == 0x10000 && self.inner@.len() == 0x10000
    }

    open spec fn is_zero(&self) -> bool {
        &&& self.wf()
        &&& forall|j: int| 0 <= j < 0x10000 ==> self.outer@[j] == 0
        &&& forall|j: int| 0 <= j < 0x10000 ==> self.inner@[j] == 0
    }

    fn zero() -> (r: Self) {
        NTupleMediumWeights { outer: zero_table(0x10000), inner: zero_table(0x10000) }
    }
}

/// The medium n-tuple value function.
pub struct NTupleMedium {
    pub weights: NTupleMediumWeights,
}

impl NTupleMedium {
    /// The outer tuple indices of a board.
    fn outer_tuple_vec(state: &Board) -> (v: Vec<u16>)
        ensures
            v@ == outer_tuples(state.0),
            v@.len() == 8,
    {
        let mut v: Vec<u16> = Vec::new();
        let r0 = state.row_at(0);
        let r3 = state.row_at(3);
        let c0 = state.column_at(0);
        let c3 = state.column_at(3);
        let r0r = r0.reversed();
        let r3r = r3.reversed();
        let c0r = c0.reversed();
        let c3r = c3.reversed();
        v.push(r0.as_u16());
        v.push(r0r.as_u16());
        v.push(c0.as_u16());
        v.push(c0r.as_u16());
        v.push(r3.as_u16());
        v.push(r3r.as_u16());
        v.push(c3.as_u16());
        v.push(c3r.as_u16());
        proof {
            lemma_line_bits(state.0, 0);
            lemma_line_bits(state.0, 3);
            crate::board::lemma_pack_row_id(r0r.0);
            crate::board::lemma_pack_row_id(r3r.0);
            crate::board::lemma_pack_row_id(c0.0);
            crate::board::lemma_pack_row_id(c3.0);
            crate::board::lemma_pack_row_id(c0r.0);
            crate::board::lemma_pack_row_id(c3r.0);
            assert(v@ =~= outer_tuples(state.0));
        }
        v
    }

    /// The inner tuple indices of a board.
    fn inner_tuple_vec(state: &Board) -> (v: Vec<u16>)
        ensures
            v@ == inner_tuples(state.0),
            v@.len() == 8,
    {
        let mut v: Vec<u16> = Vec::new();
        let r1 = state.row_at(1);
        let r2 = state.row_at(2);
        let c1 = state.column_at(1);
        let c2 = state.column_at(2);
        let r1r = r1.reversed();
        let r2r = r2.reversed();
        let c1r = c1.reversed();
        let c2r = c2.reversed();
        v.push(r1.as_u16());
        v.push(r1r.as_u16());
        v.push(c1.as_u16());
        v.push(c1r.as_u16());
        v.push(r2.as_u16());
        v.push(r2r.as_u16());
        v.push(c2.as_u16());
        v.push(c2r.as_u16());
        proof {
            lemma_line_bits(state.0, 1);
            lemma_line_bits(state.0, 2);
            crate::board::lemma_pack_row_id(r1r.0);
            crate::board::lemma_pack_row_id(r2r.0);
            crate::board::lemma_pack_row_id(c1.0);
            crate::board::lemma_pack_row_id(c2.0);
            crate::board::lemma_pack_row_id(c1r.0);
            crate::board::lemma_pack_row_id(c2r.0);
            assert(v@ =~= inner_tuples(state.0));
        }
        v
    }
}

/// The packed bits of a line and its reverse, as the tuple lists use
/// them: a row's bits reverse through re-packing, and a column's packed
/// form is the packing of its tile sequence.
proof fn lemma_line_bits(b: u64, i: int)
    requires
        0 <= i < 4,
    ensures
        rev16(brow16(b, i)) == pack_row(rev4(board_row(b, i))),
        col16(b, i) == pack_row(board_col(b, i)),
        rev16(col16(b, i)) == pack_row(rev4(board_col(b, i))),
{
    crate::board::lemma_board_rows_valid(b);
    crate::board::lemma_pack_row_id(brow16(b, i));
    assert forall|j: int| 0 <= j < 4 implies board_col(b, i)[j] < 16 by {
        crate::board::lemma_bnib_bound(b, i + 4 * j);
        assert(board_col(b, i)[0] == crate::board::bnib(b, i));
        assert(board_col(b, i)[1] == crate::board::bnib(b, i + 4));
        assert(board_col(b, i)[2] == crate::board::bnib(b, i + 8));
        assert(board_col(b, i)[3] == crate::board::bnib(b, i + 12));
        crate::board::lemma_bnib_bound(b, i);
        crate::board::lemma_bnib_bound(b, i + 4);
        crate::board::lemma_bnib_bound(b, i + 8);
        crate::board::lemma_bnib_bound(b, i + 12);
    }
    lemma_pack_row_tiles(board_col(b, i));
}

impl VFunction for NTupleMedium {
    type Weights = NTupleMediumWeights;

    open spec fn wf(&self) -> bool {
        self.weights.wf()
    }

    open spec fn is_zero(&self) -> bool {
        self.weights.is_zero()
    }

    open spec fn weights_view(&self) -> NTupleMediumWeights {
        self.weights
    }

    open spec fn eval_spec(&self, b: u64) -> int {
        sum_slots(self.weights.outer@, outer_tuples(b)) + sum_slots(
            self.weights.inner@,
            inner_tuples(b),
        )
    }

    open spec fn learn_rel(pre: Self, b: u64, delta: i64, post: Self) -> bool {
        let q = tdiv(delta as int, 16);
        &&& post.weights.wf()
        &&& forall|j: int|
            0 <= j < 0x10000 ==> post.weights.outer@[j] == clamp_i64(
                pre.weights.outer@[j] + cnt_slots(outer_tuples(b), j) * q,
            )
        &&& forall|j: int|
            0 <= j < 0x10000 ==> post.weights.inner@[j] == clamp_i64(
                pre.weights.inner@[j] + cnt_slots(inner_tuples(b), j) * q,
            )
    }

    proof fn lemma_eval_bound(&self, b: u64) {
        crate::v_function::lemma_sum_slots_bound(self.weights.outer@, outer_tuples(b));
        crate::v_function::lemma_sum_slots_bound(self.weights.inner@, inner_tuples(b));
    }

    fn new(weights: NTupleMediumWeights) -> (r: Self) {
        NTupleMedium { weights }
    }

    fn eval(&self, state: &Board) -> (r: i128) {
        let ov = Self::outer_tuple_vec(state);
        let iv = Self::inner_tuple_vec(state);
        let so = sum_weights(&self.weights.outer, &ov);
        let si = sum_weights(&self.weights.inner, &iv);
        so + si
    }

    fn learn(&mut self, state: &Board, delta: i64) {
        let q = div_toward_zero(delta, 16);
        let ov = Self::outer_tuple_vec(state);
        let iv = Self::inner_tuple_vec(state);
        apply_updates(&mut self.weights.outer, &ov, q);
        apply_updates(&mut self.weights.inner, &iv, q);
    }

    fn into_weights(self) -> (w: NTupleMediumWeights) {
        self.weights
    }
}

/// The exact-gradient law of the medium n-tuple update: when no weight
/// saturates, one learning step on board `b` moves the value of any board
/// `b2` by the number of line indices the two boards share, times the
/// per-slot share of the delta.
pub proof fn lemma_medium_learn_eval(pre: NTupleMedium, post: NTupleMedium, b: u64, b2: u64, delta: i64)
    requires
        pre.wf(),
        NTupleMedium::learn_rel(pre, b, delta, post),
        forall|j: int|
            0 <= j < 0x10000 ==> -0x2000_0000_0000_0000 <= #[trigger] pre.weights.outer@[j]
                <= 0x2000_0000_0000_0000,
        forall|j: int|
            0 <= j < 0x10000 ==> -0x2000_0000_0000_0000 <= #[trigger] pre.weights.inner@[j]
                <= 0x2000_0000_0000_0000,
        -0x0400_0000_0000_0000 <= delta <= 0x0400_0000_0000_0000,
    ensures
        post.eval_spec(b2) == pre.eval_spec(b2) + (dot_slots(outer_tuples(b), outer_tuples(b2))
            + dot_slots(inner_tuples(b), inner_tuples(b2))) * tdiv(delta as int, 16),
{
    let q = tdiv(delta as int, 16);
    lemma_tdiv_small(delta, 16);
    lemma_tdiv_abs(delta as int, 16);
    assert(-0x0400_0000_0000_0000 <= q <= 0x0400_0000_0000_0000);
    assert forall|j: int| 0 <= j < 0x10000 implies i64::MIN <= pre.weights.outer@[j]
        + #[trigger] cnt_slots(outer_tuples(b), j) * q <= i64::MAX by {
        crate::v_function::lemma_cnt_slots_facts(outer_tuples(b), j);
        assert(cnt_slots(outer_tuples(b), j) * q <= 16 * 0x0400_0000_0000_0000
            && cnt_slots(outer_tuples(b), j) * q >= -(16 * 0x0400_0000_0000_0000))
            by (nonlinear_arith)
            requires 0 <= cnt_slots(outer_tuples(b), j) <= 16,
                -0x0400_0000_0000_0000 <= q <= 0x0400_0000_0000_0000
        ;
    }
    assert forall|j: int| 0 <= j < 0x10000 implies i64::MIN <= pre.weights.inner@[j]
        + #[trigger] cnt_slots(inner_tuples(b), j) * q <= i64::MAX by {
        crate::v_function::lemma_cnt_slots_facts(inner_tuples(b), j);
        assert(cnt_slots(inner_tuples(b), j) * q <= 16 * 0x0400_0000_0000_0000
            && cnt_slots(inner_tuples(b), j) * q >= -(16 * 0x0400_0000_0000_0000))
            by (nonlinear_arith)
            requires 0 <= cnt_slots(inner_tuples(b), j) <= 16,
                -0x0400_0000_0000_0000 <= q <= 0x0400_0000_0000_0000
        ;
    }
    lemma_learn_then_eval(
        pre.weights.outer@,
        post.weights.outer@,
        outer_tuples(b),
        outer_tuples(b2),
        q as i64,
    );
    lemma_learn_then_eval(
        pre.weights.inner@,
        post.weights.inner@,
        inner_tuples(b),
        inner_tuples(b2),
        q as i64,
    );
    assert((dot_slots(outer_tuples(b), outer_tuples(b2)) + dot_slots(
        inner_tuples(b),
        inner_tuples(b2),
    )) * q == dot_slots(outer_tuples(b), outer_tuples(b2)) * q + dot_slots(
        inner_tuples(b),
        inner_tuples(b2),
    ) * q) by (nonlinear_arith);
}

/// Training from zero weights: when the eight line indices of each table
/// are distinct, one learning step makes the value of the learned board
/// exactly the 16 shares that were distributed; with a delta divisible by
/// 16 that is the delta itself.
pub proof fn lemma_medium_train_from_zero(pre: NTupleMedium, post: NTupleMedium, b: u64, delta: i64)
    requires
        pre.wf(),
        pre.is_zero(),
        NTupleMedium::learn_rel(pre, b, delta, post),
        -0x0400_0000_0000_0000 <= delta <= 0x0400_0000_0000_0000,
        forall|p: int, z: int| 0 <= p < z < 8 ==> outer_tuples(b)[p] != outer_tuples(b)[z],
        forall|p: int, z: int| 0 <= p < z < 8 ==> inner_tuples(b)[p] != inner_tuples(b)[z],
    ensures
        post.eval_spec(b) == 16 * tdiv(delta as int, 16),
{
    lemma_medium_learn_eval(pre, post, b, b, delta);
    lemma_sum_slots_zero(pre.weights.outer@, outer_tuples(b));
    lemma_sum_slots_zero(pre.weights.inner@, inner_tuples(b));
    lemma_dot_self_distinct(outer_tuples(b));
    lemma_dot_self_distinct(inner_tuples(b));
}

} // verus!
