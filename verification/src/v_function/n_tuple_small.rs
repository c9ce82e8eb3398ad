//! The small n-tuple value function: per-tile lookups partitioned by the
//! cell's role on the board. Corner cells, edge cells and center cells
//! each draw on their own 16-entry table; 16 feature slots in all.

use vstd::prelude::*;
use crate::board::{board_row, Board};
use crate::v_function::{
    apply_updates, clamp_i64, cnt_slots, div_toward_zero, dot_slots, lemma_dot_self_distinct,
    lemma_learn_then_eval, lemma_sum_slots_zero, lemma_tdiv_abs, lemma_tdiv_small, sum_slots,
    sum_weights, tdiv, zero_table, VFunction, Weights,
};

verus! {

/// The corner feature slots: the end positions of the outer rows.
pub open spec fn corner_slots(b: u64) -> Seq<u16> {
    seq![board_row(b, 0)[0], board_row(b, 0)[3], board_row(b, 3)[0], board_row(b, 3)[3]]
}

/// The edge feature slots: the middle positions of the outer rows and the
/// end positions of the inner rows.
pub open spec fn edge_slots(b: u64) -> Seq<u16> {
    seq![
        board_row(b, 0)[1],
        board_row(b, 0)[2],
        board_row(b, 3)[1],
        board_row(b, 3)[2],
        board_row(b, 1)[0],
        board_row(b, 1)[3],
        board_row(b, 2)[0],
        board_row(b, 2)[3],
    ]
}

/// The center feature slots: the middle positions of the inner rows.
pub open spec fn center_slots(b: u64) -> Seq<u16> {
    seq![board_row(b, 1)[1], board_row(b, 1)[2], board_row(b, 2)[1], board_row(b, 2)[2]]
}

/// Every slot of the small n-tuple function is a tile exponent below 16.
pub proof fn lemma_small_slots_valid(b: u64)
    ensures
        corner_slots(b).len() == 4,
        edge_slots(b).len() == 8,
        center_slots(b).len() == 4,
        forall|p: int| 0 <= p < 4 ==> (#[trigger] corner_slots(b)[p]) < 16,
        forall|p: int| 0 <= p < 8 ==> (#[trigger] edge_slots(b)[p]) < 16,
        forall|p: int| 0 <= p < 4 ==> (#[trigger] center_slots(b)[p]) < 16,
{
    crate::board::lemma_board_rows_valid(b);
}

/// The weight set of the small n-tuple function: one 16-entry table per
/// cell role.
pub struct NTupleSmallWeights {
    pub corner: Vec<i64>,
    pub edge: Vec<i64>,
    pub center: Vec<i64>,
}

impl Weights for NTupleSmallWeights {
    open spec fn wf(&self) -> bool {
        self.corner@.len() == 16 && self.edge@.len() == 16 && self.center@.len() == 16
    }

    open spec fn is_zero(&self) -> bool {
        &&& self.wf()
        &&& forall|j: int| 0 <= j < 16 ==> self.corner@[j] == 0
        &&& forall|j: int| 0 <= j < 16 ==> self.edge@[j] == 0
        &&& forall|j: int| 0 <= j < 16 ==> self.center@[j] == 0
    }

    fn zero() -> (r: Self) {
        NTupleSmallWeights { corner: zero_table(16), edge: zero_table(16), center: zero_table(16) }
    }
}

/// The small n-tuple value function.
pub struct NTupleSmall {
    pub weights: NTupleSmallWeights,
}

impl NTupleSmall {
    /// The corner slot list of a board.
    fn corner_slot_vec(state: &Board) -> (v: Vec<u16>)
        ensures
            v@ == corner_slots(state.0),
    {
        let mut v: Vec<u16> = Vec::new();
        let r0 = state.row_at(0);
        let r3 = state.row_at(3);
        v.push(r0.tile_at(0));
        v.push(r0.tile_at(3));
        v.push(r3.tile_at(0));
        v.push(r3.tile_at(3));
        proof {
            assert(v@ =~= corner_slots(state.0));
        }
        v
    }

    /// The edge slot list of a board.
    fn edge_slot_vec(state: &Board) -> (v: Vec<u16>)
        ensures
            v@ == edge_slots(state.0),
    {
        let mut v: Vec<u16> = Vec::new();
        let r0 = state.row_at(0);
        let r3 = state.row_at(3);
        let r1 = state.row_at(1);
        let r2 = state.row_at(2);
        v.push(r0.tile_at(1));
        v.push(r0.tile_at(2));
        v.push(r3.tile_at(1));
        v.push(r3.tile_at(2));
        v.push(r1.tile_at(0));
        v.push(r1.tile_at(3));
        v.push(r2.tile_at(0));
        v.push(r2.tile_at(3));
        proof {
            assert(v@ =~= edge_slots(state.0));
        }
        v
    }

    /// The center slot list of a board.
    fn center_slot_vec(state: &Board) -> (v: Vec<u16>)
        ensures
            v@ == center_slots(state.0),
    {
        let mut v: Vec<u16> = Vec::new();
        let r1 = state.row_at(1);
        let r2 = state.row_at(2);
        v.push(r1.tile_at(1));
        v.push(r1.tile_at(2));
        v.push(r2.tile_at(1));
        v.push(r2.tile_at(2));
        proof {
            assert(v@ =~= center_slots(state.0));
        }
        v
    }
}

impl VFunction for NTupleSmall {
    type Weights = NTupleSmallWeights;

    open spec fn wf(&self) -> bool {
        self.weights.wf()
    }

    open spec fn is_zero(&self) -> bool {
        self.weights.is_zero()
    }

    open spec fn weights_view(&self) -> NTupleSmallWeights {
        self.weights
    }

    open spec fn eval_spec(&self, b: u64) -> int {
        sum_slots(self.weights.corner@, corner_slots(b)) + sum_slots(
            self.weights.edge@,
            edge_slots(b),
        ) + sum_slots(self.weights.center@, center_slots(b))
    }

    open spec fn learn_rel(pre: Self, b: u64, delta: i64, post: Self) -> bool {
        let q = tdiv(delta as int, 16);
        &&& post.weights.wf()
        &&& forall|j: int|
            0 <= j < 16 ==> post.weights.corner@[j] == clamp_i64(
                pre.weights.corner@[j] + cnt_slots(corner_slots(b), j) * q,
            )
        &&& forall|j: int|
            0 <= j < 16 ==> post.weights.edge@[j] == clamp_i64(
                pre.weights.edge@[j] + cnt_slots(edge_slots(b), j) * q,
            )
        &&& forall|j: int|
            0 <= j < 16 ==> post.weights.center@[j] == clamp_i64(
                pre.weights.center@[j] + cnt_slots(center_slots(b), j) * q,
            )
    }

    proof fn lemma_eval_bound(&self, b: u64) {
        lemma_small_slots_valid(b);
        crate::v_function::lemma_sum_slots_bound(self.weights.corner@, corner_slots(b));
        crate::v_function::lemma_sum_slots_bound(self.weights.edge@, edge_slots(b));
        crate::v_function::lemma_sum_slots_bound(self.weights.center@, center_slots(b));
    }

    fn new(weights: NTupleSmallWeights) -> (r: Self) {
        NTupleSmall { weights }
    }

    fn eval(&self, state: &Board) -> (r: i128) {
        let cv = Self::corner_slot_vec(state);
        let ev = Self::edge_slot_vec(state);
        let zv = Self::center_slot_vec(state);
        proof {
            lemma_small_slots_valid(state.0);
        }
        let sc = sum_weights(&self.weights.corner, &cv);
        let se = sum_weights(&self.weights.edge, &ev);
        let sz = sum_weights(&self.weights.center, &zv);
        sc + se + sz
    }

    fn learn(&mut self, state: &Board, delta: i64) {
        let q = div_toward_zero(delta, 16);
        let cv = Self::corner_slot_vec(state);
        let ev = Self::edge_slot_vec(state);
        let zv = Self::center_slot_vec(state);
        proof {
            lemma_small_slots_valid(state.0);
        }
        apply_updates(&mut self.weights.corner, &cv, q);
        apply_updates(&mut self.weights.edge, &ev, q);
        apply_updates(&mut self.weights.center, &zv, q);
    }

    fn into_weights(self) -> (w: NTupleSmallWeights) {
        self.weights
    }
}

/// The exact-gradient law of the small n-tuple update: when no weight
/// saturates, one learning step on board `b` moves the value of any board
/// `b2` by the number of feature-slot occurrences the two boards share,
/// times the per-slot share of the delta.
pub proof fn lemma_small_learn_eval(pre: NTupleSmall, post: NTupleSmall, b: u64, b2: u64, delta: i64)
    requires
        pre.wf(),
        NTupleSmall::learn_rel(pre, b, delta, post),
        forall|j: int|
            0 <= j < 16 ==> -0x2000_0000_0000_0000 <= #[trigger] pre.weights.corner@[j]
                <= 0x2000_0000_0000_0000,
        forall|j: int|
            0 <= j < 16 ==> -0x2000_0000_0000_0000 <= #[trigger] pre.weights.edge@[j]
                <= 0x2000_0000_0000_0000,
        forall|j: int|
            0 <= j < 16 ==> -0x2000_0000_0000_0000 <= #[trigger] pre.weights.center@[j]
                <= 0x2000_0000_0000_0000,
        -0x0400_0000_0000_0000 <= delta <= 0x0400_0000_0000_0000,
    ensures
        post.eval_spec(b2) == pre.eval_spec(b2) + (dot_slots(corner_slots(b), corner_slots(b2))
            + dot_slots(edge_slots(b), edge_slots(b2)) + dot_slots(
            center_slots(b),
            center_slots(b2),
        )) * tdiv(delta as int, 16),
{
    let q = tdiv(delta as int, 16);
    lemma_small_slots_valid(b);
    lemma_small_slots_valid(b2);
    lemma_tdiv_small(delta, 16);
    lemma_tdiv_abs(delta as int, 16);
    assert(-0x0400_0000_0000_0000 <= q <= 0x0400_0000_0000_0000);
    assert forall|j: int| 0 <= j < 16 implies i64::MIN <= pre.weights.corner@[j]
        + #[trigger] cnt_slots(corner_slots(b), j) * q <= i64::MAX by {
        crate::v_function::lemma_cnt_slots_facts(corner_slots(b), j);
        assert(cnt_slots(corner_slots(b), j) * q <= 16 * 0x0400_0000_0000_0000
            && cnt_slots(corner_slots(b), j) * q >= -(16 * 0x0400_0000_0000_0000))
            by (nonlinear_arith)
            requires 0 <= cnt_slots(corner_slots(b), j) <= 16,
                -0x0400_0000_0000_0000 <= q <= 0x0400_0000_0000_0000
        ;
    }
    assert forall|j: int| 0 <= j < 16 implies i64::MIN <= pre.weights.edge@[j]
        + #[trigger] cnt_slots(edge_slots(b), j) * q <= i64::MAX by {
        crate::v_function::lemma_cnt_slots_facts(edge_slots(b), j);
        assert(cnt_slots(edge_slots(b), j) * q <= 16 * 0x0400_0000_0000_0000
            && cnt_slots(edge_slots(b), j) * q >= -(16 * 0x0400_0000_0000_0000))
            by (nonlinear_arith)
            requires 0 <= cnt_slots(edge_slots(b), j) <= 16,
                -0x0400_0000_0000_0000 <= q <= 0x0400_0000_0000_0000
        ;
    }
    assert forall|j: int| 0 <= j < 16 implies i64::MIN <= pre.weights.center@[j]
        + #[trigger] cnt_slots(center_slots(b), j) * q <= i64::MAX by {
        crate::v_function::lemma_cnt_slots_facts(center_slots(b), j);
        assert(cnt_slots(center_slots(b), j) * q <= 16 * 0x0400_0000_0000_0000
            && cnt_slots(center_slots(b), j) * q >= -(16 * 0x0400_0000_0000_0000))
            by (nonlinear_arith)
            requires 0 <= cnt_slots(center_slots(b), j) <= 16,
                -0x0400_0000_0000_0000 <= q <= 0x0400_0000_0000_0000
        ;
    }
    lemma_learn_then_eval(
        pre.weights.corner@,
        post.weights.corner@,
        corner_slots(b),
        corner_slots(b2),
        q as i64,
    );
    lemma_learn_then_eval(pre.weights.edge@, post.weights.edge@, edge_slots(b), edge_slots(b2), q as i64);
    lemma_learn_then_eval(
        pre.weights.center@,
        post.weights.center@,
        center_slots(b),
        center_slots(b2),
        q as i64,
    );
    assert((dot_slots(corner_slots(b), corner_slots(b2)) + dot_slots(edge_slots(b), edge_slots(b2))
        + dot_slots(center_slots(b), center_slots(b2))) * q == dot_slots(
        corner_slots(b),
        corner_slots(b2),
    ) * q + dot_slots(edge_slots(b), edge_slots(b2)) * q + dot_slots(
        center_slots(b),
        center_slots(b2),
    ) * q) by (nonlinear_arith);
}

/// Training from zero weights: when every feature slot of `b` is distinct
/// within its role, one learning step makes the value of `b` exactly the
/// 16 shares that were distributed; with a delta divisible by 16 that is
/// the delta itself.
pub proof fn lemma_small_train_from_zero(pre: NTupleSmall, post: NTupleSmall, b: u64, delta: i64)
    requires
        pre.wf(),
        pre.is_zero(),
        NTupleSmall::learn_rel(pre, b, delta, post),
        -0x0400_0000_0000_0000 <= delta <= 0x0400_0000_0000_0000,
        forall|p: int, z: int| 0 <= p < z < 4 ==> corner_slots(b)[p] != corner_slots(b)[z],
        forall|p: int, z: int| 0 <= p < z < 8 ==> edge_slots(b)[p] != edge_slots(b)[z],
        forall|p: int, z: int| 0 <= p < z < 4 ==> center_slots(b)[p] != center_slots(b)[z],
    ensures
        post.eval_spec(b) == 16 * tdiv(delta as int, 16),
{
    lemma_small_slots_valid(b);
    lemma_small_learn_eval(pre, post, b, b, delta);
    lemma_sum_slots_zero(pre.weights.corner@, corner_slots(b));
    lemma_sum_slots_zero(pre.weights.edge@, edge_slots(b));
    lemma_sum_slots_zero(pre.weights.center@, center_slots(b));
    lemma_dot_self_distinct(corner_slots(b));
    lemma_dot_self_distinct(edge_slots(b));
    lemma_dot_self_distinct(center_slots(b));
}

} // verus!
