//! The legacy value function: per-row and per-column position-by-tile
//! summaries. The outer table scores the two end positions of each line,
//! the inner table the two middle positions; 32 feature slots in all.

use vstd::prelude::*;
use crate::board::{bnib, board_col, board_row, lemma_bnib_bound, lemma_board_rows_valid, Board};
use crate::v_function::{
    apply_updates, clamp_i64, cnt_slots, div_toward_zero, dot_slots, lemma_dot_self_distinct,
    lemma_learn_then_eval, lemma_sum_slots_bound, lemma_sum_slots_zero, sum_slots, sum_weights,
    tdiv, zero_table, VFunction, Weights,
};

verus! {

/// The outer feature slots of a board: the end positions of each row and
/// each column, as tile exponents.
pub open spec fn outer_slots(b: u64) -> Seq<u16> {
    seq![
        board_row(b, 0)[0],
        board_row(b, 0)[3],
        board_row(b, 1)[0],
        board_row(b, 1)[3],
        board_row(b, 2)[0],
        board_row(b, 2)[3],
        board_row(b, 3)[0],
        board_row(b, 3)[3],
        board_col(b, 0)[0],
        board_col(b, 0)[3],
        board_col(b, 1)[0],
        board_col(b, 1)[3],
        board_col(b, 2)[0],
        board_col(b, 2)[3],
        board_col(b, 3)[0],
        board_col(b, 3)[3],
    ]
}

/// The inner feature slots of a board: the middle positions of each row
/// and each column, as tile exponents.
pub open spec fn inner_slots(b: u64) -> Seq<u16> {
    seq![
        board_row(b, 0)[1],
        board_row(b, 0)[2],
        board_row(b, 1)[1],
        board_row(b, 1)[2],
        board_row(b, 2)[1],
        board_row(b, 2)[2],
        board_row(b, 3)[1],
        board_row(b, 3)[2],
        board_col(b, 0)[1],
        board_col(b, 0)[2],
        board_col(b, 1)[1],
        board_col(b, 1)[2],
        board_col(b, 2)[1],
        board_col(b, 2)[2],
        board_col(b, 3)[1],
        board_col(b, 3)[2],
    ]
}

/// Every legacy feature slot is a tile exponent below 16.
pub proof fn lemma_legacy_slots_valid(b: u64)
    ensures
        outer_slots(b).len() == 16,
        inner_slots(b).len() == 16,
        forall|p: int| 0 <= p < 16 ==> (#[trigger] outer_slots(b)[p]) < 16,
        forall|p: int| 0 <= p < 16 ==> (#[trigger] inner_slots(b)[p]) < 16,
{
    lemma_board_rows_valid(b);
    assert forall|i: int| 0 <= i < 16 implies #[trigger] bnib(b, i) < 16 by {
        lemma_bnib_bound(b, i);
    }
    assert forall|p: int| 0 <= p < 16 implies (#[trigger] outer_slots(b)[p]) < 16 by {
        lemma_slot_entry_bounds(b);
    }
    assert forall|p: int| 0 <= p < 16 implies (#[trigger] inner_slots(b)[p]) < 16 by {
        lemma_slot_entry_bounds(b);
    }
}

/// The entries the legacy slot lists draw on are all nibbles.
proof fn lemma_slot_entry_bounds(b: u64)
    ensures
        forall|x: int, j: int| 0 <= x < 4 && 0 <= j < 4 ==> (#[trigger] board_col(b, x)[j]) < 16,
        forall|i: int, j: int| 0 <= i < 4 && 0 <= j < 4 ==> (#[trigger] board_row(b, i)[j]) < 16,
{
    lemma_board_rows_valid(b);
    assert forall|x: int, j: int| 0 <= x < 4 && 0 <= j < 4 implies (#[trigger] board_col(b, x)[j])
        < 16 by {
        lemma_bnib_bound(b, x);
        lemma_bnib_bound(b, x + 4);
        lemma_bnib_bound(b, x + 8);
        lemma_bnib_bound(b, x + 12);
    }
}

/// The weight set of the legacy value function: a 16-entry bonus per tile
/// exponent for the outer positions and one for the inner positions.
pub struct LegacyWeights {
    pub outer_pos_bonus: Vec<i64>,
    pub inner_pos_bonus: Vec<i64>,
}

impl Weights for LegacyWeights {
    open spec fn wf(&self) -> bool {
        self.outer_pos_bonus@.len() == 16 && self.inner_pos_bonus@.len() == 16
    }

    open spec fn is_zero(&self) -> bool {
        &&& self.wf()
        &&& forall|j: int| 0 <= j < 16 ==> self.outer_pos_bonus@[j] == 0
        &&& forall|j: int| 0 <= j < 16 ==> self.inner_pos_bonus@[j] == 0
    }

    fn zero() -> (r: Self) {
        LegacyWeights { outer_pos_bonus: zero_table(16), inner_pos_bonus: zero_table(16) }
    }
}

/// The legacy value function.
pub struct Legacy {
    pub weights: LegacyWeights,
}

impl Legacy {
    /// The outer slot list of a board, as the evaluation reads it.
    fn outer_slot_vec(state: &Board) -> (v: Vec<u16>)
        ensures
            v@ == outer_slots(state.0),
            v@.len() == 16,
    {
        let mut v: Vec<u16> = Vec::new();
        let r0 = state.row_at(0);
        let r1 = state.row_at(1);
        let r2 = state.row_at(2);
        let r3 = state.row_at(3);
        v.push(r0.tile_at(0));
        v.push(r0.tile_at(3));
        v.push(r1.tile_at(0));
        v.push(r1.tile_at(3));
        v.push(r2.tile_at(0));
        v.push(r2.tile_at(3));
        v.push(r3.tile_at(0));
        v.push(r3.tile_at(3));
        let c0 = state.column_at(0);
        let c1 = state.column_at(1);
        let c2 = state.column_at(2);
        let c3 = state.column_at(3);
        v.push(c0.tile_at(0));
        v.push(c0.tile_at(3));
        v.push(c1.tile_at(0));
        v.push(c1.tile_at(3));
        v.push(c2.tile_at(0));
        v.push(c2.tile_at(3));
        v.push(c3.tile_at(0));
        v.push(c3.tile_at(3));
        proof {
            assert(v@ =~= outer_slots(state.0));
        }
        v
    }

    /// The inner slot list of a board.
    fn inner_slot_vec(state: &Board) -> (v: Vec<u16>)
        ensures
            v@ == inner_slots(state.0),
            v@.len() == 16,
    {
        let mut v: Vec<u16> = Vec::new();
        let r0 = state.row_at(0);
        let r1 = state.row_at(1);
        let r2 = state.row_at(2);
        let r3 = state.row_at(3);
        v.push(r0.tile_at(1));
        v.push(r0.tile_at(2));
        v.push(r1.tile_at(1));
        v.push(r1.tile_at(2));
        v.push(r2.tile_at(1));
        v.push(r2.tile_at(2));
        v.push(r3.tile_at(1));
        v.push(r3.tile_at(2));
        let c0 = state.column_at(0);
        let c1 = state.column_at(1);
        let c2 = state.column_at(2);
        let c3 = state.column_at(3);
        v.push(c0.tile_at(1));
        v.push(c0.tile_at(2));
        v.push(c1.tile_at(1));
        v.push(c1.tile_at(2));
        v.push(c2.tile_at(1));
        v.push(c2.tile_at(2));
        v.push(c3.tile_at(1));
        v.push(c3.tile_at(2));
        proof {
            assert(v@ =~= inner_slots(state.0));
        }
        v
    }
}

impl VFunction for Legacy {
    type Weights = LegacyWeights;

    open spec fn wf(&self) -> bool {
        self.weights.wf()
    }

    open spec fn is_zero(&self) -> bool {
        self.weights.is_zero()
    }

    open spec fn weights_view(&self) -> LegacyWeights {
        self.weights
    }

    open spec fn eval_spec(&self, b: u64) -> int {
        sum_slots(self.weights.outer_pos_bonus@, outer_slots(b)) + sum_slots(
            self.weights.inner_pos_bonus@,
            inner_slots(b),
        )
    }

    open spec fn learn_rel(pre: Self, b: u64, delta: i64, post: Self) -> bool {
        let q = tdiv(delta as int, 32);
        &&& post.weights.wf()
        &&& forall|j: int|
            0 <= j < 16 ==> post.weights.outer_pos_bonus@[j] == clamp_i64(
                pre.weights.outer_pos_bonus@[j] + cnt_slots(outer_slots(b), j) * q,
            )
        &&& forall|j: int|
            0 <= j < 16 ==> post.weights.inner_pos_bonus@[j] == clamp_i64(
                pre.weights.inner_pos_bonus@[j] + cnt_slots(inner_slots(b), j) * q,
            )
    }

    proof fn lemma_eval_bound(&self, b: u64) {
        lemma_legacy_slots_valid(b);
        lemma_sum_slots_bound(self.weights.outer_pos_bonus@, outer_slots(b));
        lemma_sum_slots_bound(self.weights.inner_pos_bonus@, inner_slots(b));
    }

    fn new(weights: LegacyWeights) -> (r: Self) {
        Legacy { weights }
    }

    fn eval(&self, state: &Board) -> (r: i128) {
        let ov = Self::outer_slot_vec(state);
        let iv = Self::inner_slot_vec(state);
        proof {
            lemma_legacy_slots_valid(state.0);
        }
        let so = sum_weights(&self.weights.outer_pos_bonus, &ov);
        let si = sum_weights(&self.weights.inner_pos_bonus, &iv);
        so + si
    }

    fn learn(&mut self, state: &Board, delta: i64) {
        let q = div_toward_zero(delta, 32);
        let ov = Self::outer_slot_vec(state);
        let iv = Self::inner_slot_vec(state);
        proof {
            lemma_legacy_slots_valid(state.0);
        }
        apply_updates(&mut self.weights.outer_pos_bonus, &ov, q);
        apply_updates(&mut self.weights.inner_pos_bonus, &iv, q);
    }

    fn into_weights(self) -> (w: LegacyWeights) {
        self.weights
    }
}

/// The exact-gradient law of the legacy update: when no weight saturates,
/// one learning step on board `b` moves the value of any board `b2` by the
/// number of feature-slot occurrences the two boards share, times the
/// per-slot share of the delta.
pub proof fn lemma_legacy_learn_eval(pre: Legacy, post: Legacy, b: u64, b2: u64, delta: i64)
    requires
        pre.wf(),
        Legacy::learn_rel(pre, b, delta, post),
        forall|j: int|
            0 <= j < 16 ==> -0x2000_0000_0000_0000 <= #[trigger] pre.weights.outer_pos_bonus@[j]
                <= 0x2000_0000_0000_0000,
        forall|j: int|
            0 <= j < 16 ==> -0x2000_0000_0000_0000 <= #[trigger] pre.weights.inner_pos_bonus@[j]
                <= 0x2000_0000_0000_0000,
        -0x0400_0000_0000_0000 <= delta <= 0x0400_0000_0000_0000,
    ensures
        post.eval_spec(b2) == pre.eval_spec(b2) + (dot_slots(outer_slots(b), outer_slots(b2))
            + dot_slots(inner_slots(b), inner_slots(b2))) * tdiv(delta as int, 32),
{
    let q = tdiv(delta as int, 32);
    lemma_legacy_slots_valid(b);
    lemma_legacy_slots_valid(b2);
    crate::v_function::lemma_tdiv_small(delta, 32);
    crate::v_function::lemma_tdiv_abs(delta as int, 32);
    assert(-0x0400_0000_0000_0000 <= q <= 0x0400_0000_0000_0000);
    assert forall|j: int| 0 <= j < 16 implies i64::MIN <= pre.weights.outer_pos_bonus@[j]
        + #[trigger] cnt_slots(outer_slots(b), j) * q <= i64::MAX by {
        crate::v_function::lemma_cnt_slots_facts(outer_slots(b), j);
        assert(cnt_slots(outer_slots(b), j) * q <= 16 * 0x0400_0000_0000_0000
            && cnt_slots(outer_slots(b), j) * q >= -(16 * 0x0400_0000_0000_0000))
            by (nonlinear_arith)
            requires 0 <= cnt_slots(outer_slots(b), j) <= 16,
                -0x0400_0000_0000_0000 <= q <= 0x0400_0000_0000_0000
        ;
    }
    assert forall|j: int| 0 <= j < 16 implies i64::MIN <= pre.weights.inner_pos_bonus@[j]
        + #[trigger] cnt_slots(inner_slots(b), j) * q <= i64::MAX by {
        crate::v_function::lemma_cnt_slots_facts(inner_slots(b), j);
        assert(cnt_slots(inner_slots(b), j) * q <= 16 * 0x0400_0000_0000_0000
            && cnt_slots(inner_slots(b), j) * q >= -(16 * 0x0400_0000_0000_0000))
            by (nonlinear_arith)
            requires 0 <= cnt_slots(inner_slots(b), j) <= 16,
                -0x0400_0000_0000_0000 <= q <= 0x0400_0000_0000_0000
        ;
    }
    lemma_learn_then_eval(
        pre.weights.outer_pos_bonus@,
        post.weights.outer_pos_bonus@,
        outer_slots(b),
        outer_slots(b2),
        q as i64,
    );
    lemma_learn_then_eval(
        pre.weights.inner_pos_bonus@,
        post.weights.inner_pos_bonus@,
        inner_slots(b),
        inner_slots(b2),
        q as i64,
    );
    assert((dot_slots(outer_slots(b), outer_slots(b2)) + dot_slots(inner_slots(b), inner_slots(b2)))
        * q == dot_slots(outer_slots(b), outer_slots(b2)) * q + dot_slots(
        inner_slots(b),
        inner_slots(b2),
    ) * q) by (nonlinear_arith);
}

/// Training from zero weights: when every feature slot of `b` is distinct,
/// one learning step makes the value of `b` itself exactly the 32 shares
/// that were distributed; with a delta divisible by 32 that is the delta
/// itself.
pub proof fn lemma_legacy_train_from_zero(pre: Legacy, post: Legacy, b: u64, delta: i64)
    requires
        pre.wf(),
        pre.is_zero(),
        Legacy::learn_rel(pre, b, delta, post),
        -0x0400_0000_0000_0000 <= delta <= 0x0400_0000_0000_0000,
        forall|p: int, z: int| 0 <= p < z < 16 ==> outer_slots(b)[p] != outer_slots(b)[z],
        forall|p: int, z: int| 0 <= p < z < 16 ==> inner_slots(b)[p] != inner_slots(b)[z],
    ensures
        post.eval_spec(b) == 32 * tdiv(delta as int, 32),
{
    lemma_legacy_slots_valid(b);
    lemma_legacy_learn_eval(pre, post, b, b, delta);
    lemma_sum_slots_zero(pre.weights.outer_pos_bonus@, outer_slots(b));
    lemma_sum_slots_zero(pre.weights.inner_pos_bonus@, inner_slots(b));
    lemma_dot_self_distinct(outer_slots(b));
    lemma_dot_self_distinct(inner_slots(b));
}

} // verus!
