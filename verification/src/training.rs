//! Temporal-difference training on afterstates: self-play drives a
//! one-step bootstrapped update of the value function after every move,
//! with the learning rate folded into the delta as a fixed-point
//! fraction over `ALPHA_DEN`.

use vstd::prelude::*;
use crate::board::{board_value, is_dead_board, Board};
use crate::engine::Engine;
use crate::testing::{benchmark, lemma_move_is_legal};
use crate::v_function::{clamp_i64, tdiv, tdiv_wide, VFunction};

verus! {

/// The fixed-point denominator of the learning rate: a trainer passing
/// `alpha_num` trains with rate `alpha_num / ALPHA_DEN`.
pub const ALPHA_DEN: i64 = 65536;

/// A record emitted once per benchmark interval: the game it was taken
/// at, the total score of the games trained since the previous record
/// (absent for the very first), and the total score of the 25-game
/// benchmark. Callers divide by the interval and by 25 for means.
#[derive(Clone, Copy, PartialEq, Eq, Structural, Debug)]
pub struct TrainingProgress {
    pub game: u64,
    pub training_score: Option<u64>,
    pub test_score: u64,
}

/// The learning delta of one transition: the TD error scaled by the
/// fixed-point learning rate, truncated toward zero and clamped to the
/// range the value function takes.
fn td_delta(alpha_num: i64, err: i128) -> (d: i64)
    requires
        -0x10_0000 <= alpha_num <= 0x10_0000,
        -0x10_0000_0000_0000_0000_0000_0000 <= err <= 0x10_0000_0000_0000_0000_0000_0000,
    ensures
        d == clamp_i64(tdiv((alpha_num as int) * (err as int), ALPHA_DEN as int)),
{
    proof {
        assert((alpha_num as int) * (err as int) <= 0x10_0000 * 0x10_0000_0000_0000_0000_0000_0000
            && (alpha_num as int) * (err as int) >= -(0x10_0000
            * 0x10_0000_0000_0000_0000_0000_0000)) by (nonlinear_arith)
            requires -0x10_0000 <= alpha_num <= 0x10_0000,
                -0x10_0000_0000_0000_0000_0000_0000 <= err <= 0x10_0000_0000_0000_0000_0000_0000
        ;
    }
    let p: i128 = (alpha_num as i128) * err;
    let q = tdiv_wide(p, ALPHA_DEN as i128);
    proof {
        crate::v_function::lemma_tdiv_abs(p as int, ALPHA_DEN as int);
    }
    if q > (i64::MAX as i128) {
        i64::MAX
    } else if q < (i64::MIN as i128) {
        i64::MIN
    } else {
        q as i64
    }
}

/// Trains the value function by self-play with afterstate TD(0): each
/// turn the engine searches one ply deep, and the afterstate's value is
/// pulled toward the next afterstate's reward-plus-value (or toward zero
/// at game over). Every `benchmark_interval` games training pauses for a
/// 25-game benchmark at depth 3, and a progress record is emitted.
#[verifier::rlimit(100)]
pub fn train_td<F: VFunction>(
    engine: &mut Engine<F>,
    num_batches: u64,
    alpha_num: i64,
    benchmark_interval: u64,
) -> (progress: Vec<TrainingProgress>)
    requires
        old(engine).wf(),
        -0x10_0000 <= alpha_num <= 0x10_0000,
        benchmark_interval >= 1,
        num_batches <= 0x100_0000_0000,
    ensures
        final(engine).wf(),
        final(engine).tables == old(engine).tables,
        progress@.len() == (if num_batches == 0 {
            0int
        } else {
            1 + (num_batches - 1) / (benchmark_interval as int)
        }),
        forall|k: int|
            0 <= k < progress@.len() ==> (#[trigger] progress@[k]).game == k * benchmark_interval
                && progress@[k].game < num_batches,
        forall|k: int|
            0 <= k < progress@.len() ==> ((#[trigger] progress@[k]).training_score is None <==> k
                == 0),
        forall|k: int|
            0 <= k < progress@.len() ==> (#[trigger] progress@[k]).test_score <= 25 * (16
                * 458752),
{
    let mut progress: Vec<TrainingProgress> = Vec::new();
    let mut score_acc: u64 = 0;
    let mut i: u64 = 0;
    while i < num_batches
        invariant
            engine.wf(),
            engine.tables == old(engine).tables,
            -0x10_0000 <= alpha_num <= 0x10_0000,
            benchmark_interval >= 1,
            num_batches <= 0x100_0000_0000,
            i <= num_batches,
            score_acc <= i * (16 * 458752),
            i == 0 ==> progress@.len() == 0,
            i >= 1 ==> 1 <= progress@.len()
                && (progress@.len() - 1) * benchmark_interval < i
                && i <= progress@.len() * benchmark_interval,
            forall|k: int|
                0 <= k < progress@.len() ==> (#[trigger] progress@[k]).game == k
                    * benchmark_interval && progress@[k].game < num_batches,
            forall|k: int|
                0 <= k < progress@.len() ==> ((#[trigger] progress@[k]).training_score is None
                    <==> k == 0),
            forall|k: int|
                0 <= k < progress@.len() ==> (#[trigger] progress@[k]).test_score <= 25 * (16
                    * 458752),
        decreases num_batches - i
    {
        let ghost len_before = progress@.len() as int;
        if i % benchmark_interval == 0 {
            proof {
                // The game index of a record is the next multiple of the
                // interval: the only multiple in the window the invariant
                // pins down.
                if i >= 1 {
                    vstd::arithmetic::div_mod::lemma_fundamental_div_mod(
                        i as int,
                        benchmark_interval as int,
                    );
                    let q = (i as int) / (benchmark_interval as int);
                    assert(i == benchmark_interval * q);
                    assert(q == len_before) by (nonlinear_arith)
                        requires
                            i == benchmark_interval * q,
                            (len_before - 1) * benchmark_interval < i,
                            i <= len_before * benchmark_interval,
                            benchmark_interval >= 1,
                    ;
                    assert(i == len_before * benchmark_interval) by (nonlinear_arith)
                        requires i == benchmark_interval * q, q == len_before
                    ;
                }
            }
            let training_score: Option<u64> = if i == 0 {
                None
            } else {
                Some(score_acc)
            };
            let (bench_scores, _tiles) = benchmark(engine, 25, 3);
            let mut test_total: u64 = 0;
            let mut s: usize = 0;
            while s < bench_scores.len()
                invariant
                    bench_scores@.len() == 25,
                    forall|k: int|
                        0 <= k < bench_scores@.len() ==> #[trigger] bench_scores@[k] <= 16
                            * 458752,
                    s <= 25,
                    test_total <= (s as int) * (16 * 458752),
                decreases bench_scores@.len() - s
            {
                proof {
                    assert(((s + 1) as int) * (16 * 458752) == (s as int) * (16 * 458752) + 16
                        * 458752) by (nonlinear_arith);
                    assert((s as int) * (16 * 458752) <= 25 * (16 * 458752)) by (nonlinear_arith)
                        requires s < 25
                    ;
                }
                test_total = test_total + bench_scores[s];
                s = s + 1;
            }
            progress.push(TrainingProgress { game: i, training_score, test_score: test_total });
            score_acc = 0;
            proof {
                assert(progress@[len_before].game == len_before * benchmark_interval);
                assert((progress@.len() - 1) * benchmark_interval == len_before
                    * benchmark_interval);
                assert(i + 1 <= progress@.len() * benchmark_interval) by (nonlinear_arith)
                    requires
                        i == len_before * benchmark_interval,
                        progress@.len() == len_before + 1,
                        benchmark_interval >= 1,
                ;
            }
        } else {
            proof {
                // Between multiples nothing is pushed, and the next
                // multiple is still ahead.
                assert(i >= 1);
                if i == len_before * benchmark_interval {
                    vstd::arithmetic::div_mod::lemma_mod_multiples_basic(
                        len_before,
                        benchmark_interval as int,
                    );
                }
            }
        }
        let mut state = Board::new_random();
        let mut dead = state.is_dead(engine.tables());
        while !dead
            invariant
                engine.wf(),
                engine.tables == old(engine).tables,
                -0x10_0000 <= alpha_num <= 0x10_0000,
                !dead ==> !is_dead_board(state.0),
            decreases (if dead { 0int } else { 600000 - board_value(state.0) })
        {
            let ghost pre = state;
            proof {
                crate::board::lemma_board_value_bound(pre.0);
            }
            let action = engine.search(state, 1);
            proof {
                lemma_move_is_legal(state.0, action);
            }
            let afterstate = state.move_candidate(action, engine.tables());
            let next_state = afterstate.spawn_random_tile();
            let eval = engine.static_eval(afterstate);
            let next_dead = next_state.is_dead(engine.tables());
            if next_dead {
                // Terminal target: a dead afterstate predicts no further
                // reward.
                let delta = td_delta(alpha_num, -eval);
                engine.learn(&afterstate, delta);
                dead = true;
            } else {
                let next_action = engine.search(next_state, 1);
                proof {
                    lemma_move_is_legal(next_state.0, next_action);
                }
                let next_afterstate = next_state.move_candidate(next_action, engine.tables());
                let r = (next_afterstate.score() as i128) - (afterstate.score() as i128);
                let next_eval = engine.static_eval(next_afterstate);
                let err = r + next_eval - eval;
                let delta = td_delta(alpha_num, err);
                engine.learn(&afterstate, delta);
                proof {
                    crate::board::lemma_board_value_bound(next_state.0);
                }
                state = next_state;
                dead = next_dead;
            }
        }
        let final_score = state.score();
        proof {
            assert((i + 1) * (16 * 458752) == i * (16 * 458752) + 16 * 458752)
                by (nonlinear_arith);
            assert(i * (16 * 458752) <= 0x100_0000_0000 * (16 * 458752)) by (nonlinear_arith)
                requires i <= 0x100_0000_0000
            ;
        }
        score_acc = score_acc + final_score;
        i = i + 1;
    }
    proof {
        if num_batches >= 1 {
            let len = progress@.len() as int;
            let bi = benchmark_interval as int;
            let r = (num_batches as int) - 1 - (len - 1) * bi;
            assert(0 <= r < bi) by (nonlinear_arith)
                requires
                    (len - 1) * bi < num_batches as int <= len * bi,
                    r == (num_batches as int) - 1 - (len - 1) * bi,
                    bi >= 1,
            ;
            vstd::arithmetic::div_mod::lemma_fundamental_div_mod_converse_div(
                (num_batches as int) - 1,
                bi,
                len - 1,
                r,
            );
        }
    }
    progress
}

} // verus!
