//! Tests of the transposition cache, the search, whole games, and the
//! training loop.

use swipy_engine::v_function::legacy::{Legacy, LegacyWeights};
use swipy_engine::v_function::n_tuple_small::{NTupleSmall, NTupleSmallWeights};
use swipy_engine::v_function::Weights;
use swipy_engine::{
    train_td, Board, Direction, Engine, OutputFormat, PositionEval, TranspositionTable,
    VFunctionChoice,
};

#[test]
fn cache_get_after_set_returns_deeper_eval() {
    let mut cache = TranspositionTable::new(0x1000);
    let b = Board::from_u64(0x1234_5678_9ABC_DEF0);
    assert!(cache.get(b).is_none());
    cache.set(b, PositionEval::new(3, 42));
    let hit = cache.get(b).unwrap();
    assert_eq!(hit.depth, 3);
    assert_eq!(hit.score, 42);
    // A shallower evaluation does not displace a deeper one.
    cache.set(b, PositionEval::new(2, 7));
    let hit = cache.get(b).unwrap();
    assert_eq!(hit.depth, 3);
    assert_eq!(hit.score, 42);
    // An equally deep or deeper one does.
    cache.set(b, PositionEval::new(4, 9));
    let hit = cache.get(b).unwrap();
    assert_eq!(hit.depth, 4);
    assert_eq!(hit.score, 9);
}

#[test]
fn cache_clear_forgets_everything() {
    let mut cache = TranspositionTable::new(64);
    let b1 = Board::from_u64(1);
    let b2 = Board::from_u64(2);
    cache.set(b1, PositionEval::new(1, 10));
    cache.set(b2, PositionEval::new(2, 20));
    cache.clear();
    assert!(cache.get(b1).is_none());
    assert!(cache.get(b2).is_none());
}

#[test]
fn search_returns_a_legal_move() {
    let mut engine: Engine<Legacy> = Engine::new(LegacyWeights::zero());
    let b = Board::from_u64(0xBA92_7621_0221_1001);
    let tables_moves = b.gen_moves(engine.tables());
    let dirs: Vec<Direction> = tables_moves.iter().map(|m| m.0).collect();
    for depth in 1..=3u8 {
        let chosen = engine.search(b, depth);
        assert!(dirs.contains(&chosen));
        engine.reset();
    }
}

#[test]
fn search_prefers_the_higher_valued_afterstate() {
    // A value function that pays only for a 4-tile on an outer slot: the
    // merging move is the only one that creates such a tile.
    let mut weights = LegacyWeights::zero();
    weights.outer_pos_bonus[2] = 1000;
    let mut engine: Engine<Legacy> = Engine::new(weights);
    // Two 2-tiles in the first row: Left and Right both merge them into a
    // 4-tile on a corner cell and tie; Down only moves them. The later
    // direction wins the tie, as the move ordering promises.
    let b = Board::from_u64(0x0000_0000_0000_0011);
    let chosen = engine.search(b, 1);
    assert_eq!(chosen, Direction::Right);
}

#[test]
fn play_random_game_ends_dead() {
    let mut engine: Engine<NTupleSmall> = Engine::new(NTupleSmallWeights::zero());
    let board = swipy_engine::testing::play_random_game(&mut engine, 1);
    assert!(board.is_dead(engine.tables()));
    assert!(board.score() > 0);
}

#[test]
fn benchmark_collects_scores_and_tiles() {
    let mut engine: Engine<NTupleSmall> = Engine::new(NTupleSmallWeights::zero());
    let (scores, tiles_reached) = swipy_engine::testing::benchmark(&mut engine, 3, 1);
    assert_eq!(scores.len(), 3);
    assert_eq!(tiles_reached.len(), 16);
    // Every game reaches exponent 0, and none reaches beyond a game's
    // count.
    assert_eq!(tiles_reached[0], 3);
    for count in &tiles_reached {
        assert!(*count <= 3);
    }
}

#[test]
fn train_td_emits_progress_records() {
    let mut engine: Engine<NTupleSmall> = Engine::new(NTupleSmallWeights::zero());
    let progress = train_td(&mut engine, 2, 33, 5000);
    assert_eq!(progress.len(), 1);
    assert_eq!(progress[0].game, 0);
    assert!(progress[0].training_score.is_none());
}

#[test]
fn cli_choices_list_their_spellings() {
    assert_eq!(OutputFormat::possible_values(), vec!["human", "json"]);
    assert_eq!(
        VFunctionChoice::possible_values(),
        vec!["legacy", "n_tuple_small", "n_tuple_medium"]
    );
}
