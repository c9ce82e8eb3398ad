//! Tests of the three value functions: zero evaluation, the exact
//! training step, and generalisation across boards that share feature
//! slots. Values are fixed-point integers; a delta divisible by the slot
//! count trains exactly.

use swipy_engine::v_function::legacy::{Legacy, LegacyWeights};
use swipy_engine::v_function::n_tuple_medium::{NTupleMedium, NTupleMediumWeights};
use swipy_engine::v_function::n_tuple_small::{NTupleSmall, NTupleSmallWeights};
use swipy_engine::v_function::{VFunction, Weights};
use swipy_engine::Board;

fn board_from_rows(rows: [[u16; 4]; 4]) -> Board {
    let mut bits: u64 = 0;
    for y in 0..4 {
        for x in 0..4 {
            bits |= (rows[y][x] as u64) << (4 * (4 * y + x));
        }
    }
    Board::from_u64(bits)
}

fn board_one() -> Board {
    board_from_rows([[0, 1, 2, 3], [4, 5, 6, 7], [8, 9, 10, 11], [12, 13, 14, 15]])
}

fn board_two() -> Board {
    board_from_rows([[0, 1, 2, 3], [0, 0, 0, 0], [0, 0, 0, 0], [0, 0, 0, 0]])
}

#[test]
fn eval_zero() {
    let default = NTupleMedium::new(NTupleMediumWeights::zero());
    assert_eq!(default.eval(&board_one()), 0);
}

#[test]
fn training_eval() {
    let mut network = NTupleMedium::new(NTupleMediumWeights::zero());
    network.learn(&board_one(), 1600);
    assert_eq!(network.eval(&board_one()), 1600);
}

#[test]
fn generalization() {
    let mut network = NTupleMedium::new(NTupleMediumWeights::zero());
    network.learn(&board_one(), 1600);
    // The second board shares two of the sixteen line slots (the top row,
    // raw and reversed), so it picks up 2/16 of the delta.
    assert_eq!(network.eval(&board_two()), 1600 / 8);
}

#[test]
fn small_corner_learning() {
    // A board whose four corner cells are all empty: one learning step
    // raises the weight of corner exponent zero by four slot shares.
    let mut network = NTupleSmall::new(NTupleSmallWeights::zero());
    let b = board_from_rows([[0, 1, 2, 0], [3, 4, 5, 6], [7, 8, 9, 10], [0, 11, 12, 0]]);
    network.learn(&b, 1600);
    let weights = network.into_weights();
    assert_eq!(weights.corner[0], 4 * (1600 / 16));
}

#[test]
fn legacy_eval_reads_rows_and_columns() {
    let mut weights = LegacyWeights::zero();
    weights.outer_pos_bonus[1] = 7;
    weights.inner_pos_bonus[1] = 11;
    let f = Legacy::new(weights);
    // One 2-tile in the top-left corner: it sits on an outer slot of its
    // row and an outer slot of its column; the 30 remaining slots read
    // exponent 0 with weight 0.
    let b = board_from_rows([[1, 0, 0, 0], [0, 0, 0, 0], [0, 0, 0, 0], [0, 0, 0, 0]]);
    assert_eq!(f.eval(&b), 14);
}

#[test]
fn legacy_learn_distributes_delta() {
    let mut f = Legacy::new(LegacyWeights::zero());
    let b = board_from_rows([[1, 0, 0, 0], [0, 0, 0, 0], [0, 0, 0, 0], [0, 0, 0, 0]]);
    f.learn(&b, 3200);
    // Thirty-two slots in all; exponent 1 occupies two outer slots.
    let w = f.into_weights();
    assert_eq!(w.outer_pos_bonus[1], 2 * (3200 / 32));
    assert_eq!(w.inner_pos_bonus[1], 0);
    // The empty cells soak up the remaining shares.
    assert_eq!(w.outer_pos_bonus[0], 14 * (3200 / 32));
    assert_eq!(w.inner_pos_bonus[0], 16 * (3200 / 32));
}

#[test]
fn learn_saturates_instead_of_wrapping() {
    let mut weights = NTupleSmallWeights::zero();
    for j in 0..16 {
        weights.corner[j] = i64::MAX - 1;
    }
    let mut f = NTupleSmall::new(weights);
    let b = board_from_rows([[0, 1, 2, 0], [3, 4, 5, 6], [7, 8, 9, 10], [0, 11, 12, 0]]);
    f.learn(&b, i64::MAX);
    let w = f.into_weights();
    assert_eq!(w.corner[0], i64::MAX);
}

#[test]
fn zero_weights_evaluate_everything_to_zero() {
    let legacy = Legacy::new(LegacyWeights::zero());
    let small = NTupleSmall::new(NTupleSmallWeights::zero());
    for b in [Board::from_u64(0), board_one(), board_two()] {
        assert_eq!(legacy.eval(&b), 0);
        assert_eq!(small.eval(&b), 0);
    }
}
