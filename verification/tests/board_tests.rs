//! Tests of the packed board: accessors, move generation, spawn
//! enumeration, and the random mutators.

use swipy_engine::{Board, Direction, MoveTables, TileSpawn};

fn board_from_rows(rows: [[u16; 4]; 4]) -> Board {
    let mut bits: u64 = 0;
    for y in 0..4 {
        for x in 0..4 {
            bits |= (rows[y][x] as u64) << (4 * (4 * y + x));
        }
    }
    Board::from_u64(bits)
}

#[test]
fn at_and_row_at_read_cells() {
    let b = board_from_rows([[0, 1, 2, 3], [4, 5, 6, 7], [8, 9, 10, 11], [12, 13, 14, 15]]);
    assert_eq!(b.0, 0xFEDC_BA98_7654_3210);
    assert_eq!(b.at(0, 0), 0);
    assert_eq!(b.at(3, 0), 3);
    assert_eq!(b.at(0, 3), 12);
    assert_eq!(b.at(3, 3), 15);
    assert_eq!(b.row_at(1).as_u16(), 0x7654);
    assert_eq!(b.column_at(0).as_u16(), 0xC840);
    assert_eq!(b.column_at(3).as_u16(), 0xFB73);
}

#[test]
fn score_sums_row_scores() {
    // Two 4-tiles: each worth (2-1) * 4 = 4.
    let b = board_from_rows([[2, 0, 0, 0], [0, 0, 0, 0], [0, 0, 2, 0], [0, 0, 0, 0]]);
    assert_eq!(b.score(), 8);
    assert_eq!(Board::from_u64(0).score(), 0);
}

#[test]
fn count_empties_over_the_board() {
    assert_eq!(Board::from_u64(0).count_empties(), 16);
    assert_eq!(Board::from_u64(0x11).count_empties(), 14);
}

#[test]
fn highest_tile_finds_the_maximum() {
    let b = board_from_rows([[0, 1, 2, 3], [4, 5, 6, 7], [8, 9, 10, 11], [12, 13, 14, 15]]);
    assert_eq!(b.highest_tile(), 15);
    assert_eq!(Board::from_u64(0).highest_tile(), 0);
}

#[test]
fn corner_pair_moves() {
    // Two 2-tiles in the first row: Left merges them, Right slides them,
    // Down drops them; Up changes nothing and is excluded.
    let tables = MoveTables::new();
    let b = Board::from_u64(0x0000_0000_0000_0011);
    let moves = b.gen_moves(&tables);
    let dirs: Vec<Direction> = moves.iter().map(|m| m.0).collect();
    assert_eq!(dirs, vec![Direction::Left, Direction::Right, Direction::Down]);
    assert_eq!(moves[0].1, Board::from_u64(0x0000_0000_0000_0002));
    assert!(!b.is_dead(&tables));
}

#[test]
fn full_board_all_four_directions() {
    let tables = MoveTables::new();
    let b = Board::from_u64(0xBA92_7621_0221_1001);
    let moves = b.gen_moves(&tables);
    assert_eq!(moves.len(), 4);
    assert!(!b.is_dead(&tables));
}

#[test]
fn blocked_board_is_dead() {
    // Alternating distinct tiles: nothing can slide or merge.
    let tables = MoveTables::new();
    let b = board_from_rows([[1, 2, 1, 2], [2, 1, 2, 1], [1, 2, 1, 2], [2, 1, 2, 1]]);
    assert!(b.gen_moves(&tables).is_empty());
    assert!(b.is_dead(&tables));
}

#[test]
fn move_candidate_keeps_or_raises_score() {
    let tables = MoveTables::new();
    let b = Board::from_u64(0xBA92_7621_0221_1001);
    for d in [Direction::Left, Direction::Right, Direction::Up, Direction::Down] {
        let c = b.move_candidate(d, &tables);
        assert!(c.score() >= b.score());
    }
}

#[test]
fn vertical_moves_slide_columns() {
    let tables = MoveTables::new();
    // One tile at the bottom of column 2 travels to the top under Up.
    let b = board_from_rows([[0, 0, 0, 0], [0, 0, 0, 0], [0, 0, 0, 0], [0, 0, 3, 0]]);
    let up = b.move_candidate(Direction::Up, &tables);
    assert_eq!(up, board_from_rows([[0, 0, 3, 0], [0, 0, 0, 0], [0, 0, 0, 0], [0, 0, 0, 0]]));
    let down = up.move_candidate(Direction::Down, &tables);
    assert_eq!(down, b);
}

#[test]
fn spawn_events_cover_every_empty_cell_twice() {
    // A lone 2-tile in the centre: 15 empties, 30 events, probabilities
    // 9/150 and 1/150 summing to exactly one.
    let b = Board::from_u64(0x0000_0100_0000_0000);
    let events = b.gen_tile_spawns();
    assert_eq!(events.len(), 30);
    let mut num_total: u32 = 0;
    for (prob, tile, result) in &events {
        assert_eq!(prob.den, 150);
        match tile {
            TileSpawn::Two => assert_eq!(prob.num, 9),
            TileSpawn::Four => assert_eq!(prob.num, 1),
        }
        assert_eq!(result.count_empties(), 14);
        num_total += prob.num;
    }
    assert_eq!(num_total, 150);
}

#[test]
fn relative_probs_are_nine_to_one() {
    assert_eq!(TileSpawn::Two.relative_prob(), 9);
    assert_eq!(TileSpawn::Four.relative_prob(), 1);
}

#[test]
fn make_move_spawns_exactly_one_tile() {
    let tables = MoveTables::new();
    let b = Board::from_u64(0x0000_0000_0000_0011);
    let after = b.make_move(Direction::Left, &tables);
    // The slide leaves 15 empties, the spawn fills exactly one.
    assert_eq!(after.count_empties(), 14);
    assert!(after.score() >= b.move_candidate(Direction::Left, &tables).score());
}

#[test]
fn new_random_spawns_two_tiles() {
    for _ in 0..16 {
        let b = Board::new_random();
        assert_eq!(b.count_empties(), 14);
        let mut face_total: u64 = 0;
        for y in 0..4u64 {
            for x in 0..4u64 {
                let e = b.at(x, y);
                assert!(e <= 2);
                if e > 0 {
                    face_total += 1 << e;
                }
            }
        }
        assert!(face_total >= 4 && face_total <= 8);
    }
}

#[test]
fn transpose_twice_is_identity() {
    for bits in [0u64, 0x11, 0xFEDC_BA98_7654_3210, 0xBA92_7621_0221_1001] {
        let b = Board::from_u64(bits);
        assert_eq!(b.transpose().transpose(), b);
    }
}

#[test]
fn transpose_round_trip_through_vertical_moves() {
    // Up on a board, twice transposed through Down, lands back where a
    // direct column reading says it should.
    let tables = MoveTables::new();
    let b = board_from_rows([[1, 0, 0, 2], [1, 0, 0, 2], [0, 0, 0, 0], [3, 0, 0, 0]]);
    let up = b.move_candidate(Direction::Up, &tables);
    assert_eq!(up, board_from_rows([[2, 0, 0, 3], [3, 0, 0, 0], [0, 0, 0, 0], [0, 0, 0, 0]]));
}
