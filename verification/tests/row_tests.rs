//! Tests of the packed row: construction, scoring, the left slide, and
//! the column spread.

use swipy_engine::Row;

#[test]
fn new() {
    assert_eq!(Row::new(&[1, 2, 3, 4]), Row(0x4321));
}

#[test]
fn score() {
    assert_eq!(Row::new(&[0, 2, 0, 0]).score(), 4);
    assert_eq!(Row::new(&[0, 4, 4, 0]).score(), 96);
}

#[test]
fn moved() {
    assert_eq!(Row::new(&[1, 1, 0, 0]).moved(), Row::new(&[2, 0, 0, 0]));
    assert_eq!(Row::new(&[0, 0, 1, 0]).moved(), Row::new(&[1, 0, 0, 0]));
    assert_eq!(Row::new(&[0, 1, 3, 3]).moved(), Row::new(&[1, 4, 0, 0]));
}

#[test]
fn moved_overflow() {
    assert_eq!(Row::new(&[15, 15, 0, 0]).moved(), Row::new(&[15, 15, 0, 0]));
}

#[test]
fn reversed() {
    assert_eq!(Row::new(&[1, 2, 3, 4]).reversed(), Row::new(&[4, 3, 2, 1]));
}

#[test]
fn as_column() {
    assert_eq!(Row::new(&[1, 2, 3, 4]).as_column(), 0x0004_0003_0002_0001);
}

#[test]
fn moved_keeps_score_or_raises_it() {
    // The fixpoint cascades: the 4-tiles merge to an 8, which meets the
    // other 8 and merges again to a 16. Each merge pays 2^(e+1).
    let before = Row::new(&[2, 2, 3, 0]);
    let after = before.moved();
    assert_eq!(after, Row::new(&[4, 0, 0, 0]));
    assert!(after.score() >= before.score());
    assert_eq!(after.score() - before.score(), 24);
}

#[test]
fn moved_double_merge_cascades() {
    // The pass repeats until nothing changes, so a freshly merged pair
    // can merge again within one slide.
    assert_eq!(Row::new(&[1, 1, 2, 0]).moved(), Row::new(&[3, 0, 0, 0]));
}

#[test]
fn count_empties_counts_zero_nibbles() {
    assert_eq!(Row::new(&[0, 5, 0, 1]).count_empties(), 2);
    assert_eq!(Row::from_u16(0).count_empties(), 4);
    assert_eq!(Row::new(&[1, 2, 3, 4]).count_empties(), 0);
}

#[test]
fn tile_at_reads_packed_nibbles() {
    let r = Row::from_u16(0x4321);
    assert_eq!(r.tile_at(0), 1);
    assert_eq!(r.tile_at(1), 2);
    assert_eq!(r.tile_at(2), 3);
    assert_eq!(r.tile_at(3), 4);
    assert_eq!(r.as_u16(), 0x4321);
}

#[test]
fn iter_all_lists_every_row() {
    let rows = Row::iter_all();
    assert_eq!(rows.len(), 0x10000);
    assert_eq!(rows[0], Row(0));
    assert_eq!(rows[0x4321], Row(0x4321));
    assert_eq!(rows[0xFFFF], Row(0xFFFF));
}

#[test]
fn move_tables_are_symmetric() {
    // The reverse of a row's left-table entry is the right-table entry of
    // the reversed row.
    let tables = swipy_engine::MoveTables::new();
    for bits in [0x0011u16, 0x1234, 0x00FF, 0x1111, 0xF0F0, 0x3333] {
        let row = Row::from_u16(bits);
        let left_entry = Row::from_u16(tables.left.entries[bits as usize]);
        let rev_bits = row.reversed().as_u16();
        let right_of_rev = tables.right.entries[rev_bits as usize];
        assert_eq!(left_entry.reversed().as_u16(), right_of_rev);
    }
}

#[test]
fn repr_tile_doubles() {
    assert_eq!(swipy_engine::row::repr_tile(0), 0);
    assert_eq!(swipy_engine::row::repr_tile(1), 2);
    assert_eq!(swipy_engine::row::repr_tile(11), 2048);
    assert_eq!(swipy_engine::row::repr_tile(15), 32768);
}
