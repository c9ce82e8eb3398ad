//! Playing games with the engine: one full random game, and a benchmark
//! that plays a batch of games and collects their scores and the tiles
//! they reached.

use vstd::prelude::*;
use crate::board::{board_score, board_value, is_dead_board, legal_moves, move_board, Board, Direction};
use crate::engine::Engine;
use crate::v_function::VFunction;

verus! {

/// Plays one game from a fresh random board until it is dead, searching
/// at the given depth each turn, and returns the final board.
pub fn play_random_game<F: VFunction>(engine: &mut Engine<F>, depth: u8) -> (r: Board)
    requires
        old(engine).wf(),
        depth >= 1,
    ensures
        final(engine).wf(),
        final(engine).v_function == old(engine).v_function,
        final(engine).tables == old(engine).tables,
        is_dead_board(r.0),
        board_value(r.0) >= 4,
        board_score(r.0) >= 4,
{
    let mut board = Board::new_random();
    let mut dead = board.is_dead(engine.tables());
    while !dead
        invariant
            engine.wf(),
            engine.v_function == old(engine).v_function,
            engine.tables == old(engine).tables,
            depth >= 1,
            dead == is_dead_board(board.0),
            board_value(board.0) >= 4,
        decreases (if dead { 0int } else { 600000 - board_value(board.0) })
    {
        let ghost pre = board;
        let mov = engine.search(board, depth);
        proof {
            lemma_move_is_legal(board.0, mov);
            crate::board::lemma_board_value_bound(pre.0);
        }
        board = board.make_move(mov, engine.tables());
        dead = board.is_dead(engine.tables());
        proof {
            crate::board::lemma_board_value_bound(board.0);
        }
    }
    proof {
        crate::board::lemma_dead_board_score(board.0);
    }
    board
}

/// The chosen direction of a live board changes it, so its afterstate has
/// room for the spawned tile.
pub proof fn lemma_move_is_legal(b: u64, d: Direction)
    requires
        exists|k: int| 0 <= k < legal_moves(b).len() && d == (#[trigger] legal_moves(b)[k]).0,
    ensures
        move_board(b, d) != b,
        crate::board::board_empties(move_board(b, d)) >= 1,
        board_value(move_board(b, d)) == board_value(b),
{
    crate::board::lemma_legal_moves_char(b, d);
    crate::board::lemma_move_board_facts(b, d);
}

/// Plays a batch of games and returns each game's final score, together
/// with, for every tile exponent, how many games reached it. The engine's
/// cache is reset between games.
pub fn benchmark<F: VFunction>(engine: &mut Engine<F>, num_games: u64, depth: u8) -> (r: (
    Vec<u64>,
    Vec<u64>,
))
    requires
        old(engine).wf(),
        depth >= 1,
        num_games < 0xFFFF_FFFF_FFFF_FFFF,
    ensures
        final(engine).wf(),
        final(engine).v_function == old(engine).v_function,
        final(engine).tables == old(engine).tables,
        r.0@.len() == num_games,
        forall|k: int| 0 <= k < r.0@.len() ==> 1 <= #[trigger] r.0@[k] <= 16 * 458752,
        r.1@.len() == 16,
        r.1@[0] == num_games,
        forall|a: int, c: int| 0 <= a <= c < 16 ==> #[trigger] r.1@[c] <= #[trigger] r.1@[a],
{
    let mut scores: Vec<u64> = Vec::new();
    let mut tiles_reached: Vec<u64> = Vec::new();
    let mut t: usize = 0;
    while t < 16
        invariant
            t <= 16,
            tiles_reached@.len() == t,
            forall|k: int| 0 <= k < t ==> #[trigger] tiles_reached@[k] == 0,
        decreases 16 - t
    {
        tiles_reached.push(0);
        t = t + 1;
    }
    let mut i: u64 = 0;
    while i < num_games
        invariant
            engine.wf(),
            engine.v_function == old(engine).v_function,
            engine.tables == old(engine).tables,
            depth >= 1,
            num_games < 0xFFFF_FFFF_FFFF_FFFF,
            i <= num_games,
            scores@.len() == i,
            forall|k: int| 0 <= k < scores@.len() ==> 1 <= #[trigger] scores@[k] <= 16 * 458752,
            tiles_reached@.len() == 16,
            forall|k: int| 0 <= k < 16 ==> #[trigger] tiles_reached@[k] <= i,
            tiles_reached@[0] == i,
            forall|a: int, c: int| 0 <= a <= c < 16 ==> #[trigger] tiles_reached@[c] <= #[trigger] tiles_reached@[a],
        decreases num_games - i
    {
        let board = play_random_game(engine, depth);
        scores.push(board.score());
        let highest = board.highest_tile();
        proof {
            crate::board::lemma_board_rows_valid(board.0);
            assert(highest < 16) by {
                let (a, c) = choose|a: int, c: int|
                    0 <= a < 4 && 0 <= c < 4 && #[trigger] crate::board::board_row(board.0, a)[c]
                        == highest;
                assert(crate::row::valid_tiles(crate::board::board_row(board.0, a)));
            }
        }
        let ghost snap = tiles_reached@;
        let mut j: u64 = 0;
        while j <= highest
            invariant
                highest < 16,
                j <= highest + 1,
                tiles_reached@.len() == 16,
                snap.len() == 16,
                i < num_games,
                num_games < 0xFFFF_FFFF_FFFF_FFFF,
                forall|k: int| 0 <= k < 16 ==> #[trigger] snap[k] <= i,
                forall|k: int|
                    0 <= k < 16 ==> #[trigger] tiles_reached@[k] == snap[k] + (if k < j {
                        1int
                    } else {
                        0
                    }),
            decreases highest + 1 - j
        {
            let cur = tiles_reached[j as usize];
            tiles_reached.set(j as usize, cur + 1);
            j = j + 1;
        }
        engine.reset();
        i = i + 1;
    }
    (scores, tiles_reached)
}

} // verus!
