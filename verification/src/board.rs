//! The 4x4 board: sixteen tile exponents packed little-endian into a `u64`,
//! row by row. Moves are generated from precomputed per-row tables; spawning
//! places a 2- or 4-tile on a random empty cell.

use vstd::prelude::*;
use crate::lookup_table::LookupTable;
use crate::rng::rand_below;
use crate::row::{
    col_pattern, lemma_pack_row_tiles, lemma_row_tiles_valid, lemma_slide_facts,
    lemma_rev4_involution, nib16, pack_row, rev4, row_empties, row_score, row_tiles, row_value,
    slide, slide_right, tile_score, tile_value, valid_tiles, Row,
};

verus! {

/// A direction the player can slide the board in.
#[derive(Clone, Copy, PartialEq, Eq, Structural, Debug)]
pub enum Direction {
    Left,
    Right,
    Up,
    Down,
}

/// The tile that appears after a move: a 2 (exponent 1) with probability
/// 0.9, or a 4 (exponent 2) with probability 0.1.
#[derive(Clone, Copy, PartialEq, Eq, Structural, Debug)]
pub enum TileSpawn {
    Two,
    Four,
}

/// The relative weight of a spawn event: 9 for a 2-tile against 1 for a
/// 4-tile.
pub open spec fn rel_prob(t: TileSpawn) -> int {
    match t {
        TileSpawn::Two => 9,
        TileSpawn::Four => 1,
    }
}

/// The tile exponent a spawn event places on the board.
pub open spec fn spawn_exponent(t: TileSpawn) -> u16 {
    match t {
        TileSpawn::Two => 1,
        TileSpawn::Four => 2,
    }
}

impl TileSpawn {
    /// The relative weight of this event against the other kind.
    pub fn relative_prob(self) -> (r: u32)
        ensures
            r == rel_prob(self),
    {
        match self {
            TileSpawn::Two => 9,
            TileSpawn::Four => 1,
        }
    }
}

/// The probability of one spawn event, as an exact fraction. All events
/// emitted for one afterstate share the denominator `10 * empties`.
#[derive(Clone, Copy, PartialEq, Eq, Structural, Debug)]
pub struct SpawnProb {
    pub num: u32,
    pub den: u32,
}

/// Tile exponent `i` (0..16) of a packed board.
pub open spec fn bnib(b: u64, i: int) -> u16 {
    ((b >> ((4 * i) as u64)) & 0xF) as u16
}

/// Every board cell is a tile exponent below 16.
pub proof fn lemma_bnib_bound(b: u64, i: int)
    ensures
        bnib(b, i) < 16,
{
    let sh = (4 * i) as u64;
    assert((b >> sh) & 0xF < 16) by (bit_vector);
}

/// The packed bits of row `i` (0..4) of a board.
pub open spec fn brow16(b: u64, i: int) -> u16 {
    ((b >> ((16 * i) as u64)) & 0xFFFF) as u16
}

/// The four tiles of row `i` of a board.
pub open spec fn board_row(b: u64, i: int) -> Seq<u16> {
    row_tiles(brow16(b, i))
}

/// The four tiles of column `x` of a board, top to bottom.
pub open spec fn board_col(b: u64, x: int) -> Seq<u16> {
    seq![bnib(b, x), bnib(b, x + 4), bnib(b, x + 8), bnib(b, x + 12)]
}

/// Four packed rows assembled into a board.
pub open spec fn pack_rows(r0: u16, r1: u16, r2: u16, r3: u16) -> u64 {
    (r0 as u64) | ((r1 as u64) << 16u64) | ((r2 as u64) << 32u64) | ((r3 as u64) << 48u64)
}

/// The total score of a board: the sum of its row scores.
pub open spec fn board_score(b: u64) -> int {
    row_score(board_row(b, 0)) + row_score(board_row(b, 1)) + row_score(board_row(b, 2))
        + row_score(board_row(b, 3))
}

/// The number of empty cells of a board.
pub open spec fn board_empties(b: u64) -> int {
    row_empties(board_row(b, 0)) + row_empties(board_row(b, 1)) + row_empties(board_row(b, 2))
        + row_empties(board_row(b, 3))
}

/// The total face value of a board. Moves preserve it and spawns increase
/// it, which bounds the length of a game.
pub open spec fn board_value(b: u64) -> int {
    row_value(board_row(b, 0)) + row_value(board_row(b, 1)) + row_value(board_row(b, 2))
        + row_value(board_row(b, 3))
}

/// The transpose of a board, swapping rows and columns, computed with two
/// rounds of masked nibble swaps.
pub open spec fn transpose_board(b: u64) -> u64 {
    let a = (b & 0xF0F0_0F0F_F0F0_0F0F) | ((b & 0x0000_F0F0_0000_F0F0) << 12u64)
        | ((b & 0x0F0F_0000_0F0F_0000) >> 12u64);
    (a & 0xFF00_FF00_00FF_00FF) | ((a & 0x00FF_00FF_0000_0000) >> 24u64)
        | ((a & 0x0000_0000_FF00_FF00) << 24u64)
}

/// Nibble `4i + j` of a board is tile `j` of its row `i`.
proof fn lemma_row_nib_bv(b: u64, i: u64, j: u64)
    by (bit_vector)
    requires
        i < 4,
        j < 4,
    ensures
        ((((b >> (16 * i)) & 0xFFFF) as u16) >> ((4 * j) as u16)) & 0xF
            == ((b >> (4 * (4 * i + j))) & 0xF) as u16,
{
}

/// Bridges the row view and the nibble view of a board cell.
pub proof fn lemma_board_row_nib(b: u64, i: int, j: int)
    requires
        0 <= i < 4,
        0 <= j < 4,
    ensures
        board_row(b, i)[j] == bnib(b, 4 * i + j),
{
    lemma_row_nib_bv(b, i as u64, j as u64);
    assert((16 * i) as u64 == 16 * (i as u64));
    assert((4 * j) as u16 == (4 * (j as u64)) as u16);
    assert((4 * (4 * i + j)) as u64 == 4 * (4 * (i as u64) + (j as u64)));
}

/// Extracting the rows of four assembled rows gives them back.
proof fn lemma_pack_rows_bv(a: u16, b: u16, c: u16, d: u16)
    by (bit_vector)
    ensures
        (((a as u64) | ((b as u64) << 16u64) | ((c as u64) << 32u64) | ((d as u64) << 48u64))
            & 0xFFFF) as u16 == a,
        ((((a as u64) | ((b as u64) << 16u64) | ((c as u64) << 32u64) | ((d as u64) << 48u64))
            >> 16u64) & 0xFFFF) as u16 == b,
        ((((a as u64) | ((b as u64) << 16u64) | ((c as u64) << 32u64) | ((d as u64) << 48u64))
            >> 32u64) & 0xFFFF) as u16 == c,
        ((((a as u64) | ((b as u64) << 16u64) | ((c as u64) << 32u64) | ((d as u64) << 48u64))
            >> 48u64) & 0xFFFF) as u16 == d,
{
}

/// The rows of `pack_rows` are the packed rows it was given.
pub proof fn lemma_pack_rows_rows(r0: u16, r1: u16, r2: u16, r3: u16)
    ensures
        brow16(pack_rows(r0, r1, r2, r3), 0) == r0,
        brow16(pack_rows(r0, r1, r2, r3), 1) == r1,
        brow16(pack_rows(r0, r1, r2, r3), 2) == r2,
        brow16(pack_rows(r0, r1, r2, r3), 3) == r3,
{
    lemma_pack_rows_bv(r0, r1, r2, r3);
    assert(brow16(pack_rows(r0, r1, r2, r3), 0) == ((pack_rows(r0, r1, r2, r3) >> 0u64) & 0xFFFF) as u16);
    assert(pack_rows(r0, r1, r2, r3) >> 0u64 == pack_rows(r0, r1, r2, r3)) by (bit_vector);
}

/// A `u64` is determined by its sixteen nibbles.
proof fn lemma_nib_ext_bv(x: u64, y: u64)
    by (bit_vector)
    requires
        (x >> 0u64) & 0xF == (y >> 0u64) & 0xF,
        (x >> 4u64) & 0xF == (y >> 4u64) & 0xF,
        (x >> 8u64) & 0xF == (y >> 8u64) & 0xF,
        (x >> 12u64) & 0xF == (y >> 12u64) & 0xF,
        (x >> 16u64) & 0xF == (y >> 16u64) & 0xF,
        (x >> 20u64) & 0xF == (y >> 20u64) & 0xF,
        (x >> 24u64) & 0xF == (y >> 24u64) & 0xF,
        (x >> 28u64) & 0xF == (y >> 28u64) & 0xF,
        (x >> 32u64) & 0xF == (y >> 32u64) & 0xF,
        (x >> 36u64) & 0xF == (y >> 36u64) & 0xF,
        (x >> 40u64) & 0xF == (y >> 40u64) & 0xF,
        (x >> 44u64) & 0xF == (y >> 44u64) & 0xF,
        (x >> 48u64) & 0xF == (y >> 48u64) & 0xF,
        (x >> 52u64) & 0xF == (y >> 52u64) & 0xF,
        (x >> 56u64) & 0xF == (y >> 56u64) & 0xF,
        (x >> 60u64) & 0xF == (y >> 60u64) & 0xF,
    ensures
        x == y,
{
}

/// Two boards with the same sixteen tiles are equal.
pub proof fn lemma_board_nib_ext(x: u64, y: u64)
    requires
        forall|i: int| 0 <= i < 16 ==> bnib(x, i) == bnib(y, i),
    ensures
        x == y,
{
    assert forall|i: int| 0 <= i < 16 implies (#[trigger] (x >> ((4 * i) as u64))) & 0xF
        == (y >> ((4 * i) as u64)) & 0xF by {
        assert(bnib(x, i) == bnib(y, i));
        let sx = (x >> ((4 * i) as u64)) & 0xF;
        let sy = (y >> ((4 * i) as u64)) & 0xF;
        assert(sx < 16 && sy < 16) by {
            let s = (4 * i) as u64;
            assert((x >> s) & 0xF < 16 && (y >> s) & 0xF < 16) by (bit_vector);
        }
        assert(sx as u16 == sy as u16);
    }
    assert((4 * 0) as u64 == 0u64 && (4 * 1) as u64 == 4u64 && (4 * 2) as u64 == 8u64
        && (4 * 3) as u64 == 12u64 && (4 * 4) as u64 == 16u64 && (4 * 5) as u64 == 20u64
        && (4 * 6) as u64 == 24u64 && (4 * 7) as u64 == 28u64 && (4 * 8) as u64 == 32u64
        && (4 * 9) as u64 == 36u64 && (4 * 10) as u64 == 40u64 && (4 * 11) as u64 == 44u64
        && (4 * 12) as u64 == 48u64 && (4 * 13) as u64 == 52u64 && (4 * 14) as u64 == 56u64
        && (4 * 15) as u64 == 60u64);
    lemma_nib_ext_bv(x, y);
}

/// The nibbles of the transpose: cell `(x, y)` of the result is cell
/// `(y, x)` of the argument.
proof fn lemma_transpose_bv(b: u64)
    by (bit_vector)
    ensures
        (transpose_board(b) >> 0u64) & 0xF == (b >> 0u64) & 0xF,
        (transpose_board(b) >> 4u64) & 0xF == (b >> 16u64) & 0xF,
        (transpose_board(b) >> 8u64) & 0xF == (b >> 32u64) & 0xF,
        (transpose_board(b) >> 12u64) & 0xF == (b >> 48u64) & 0xF,
        (transpose_board(b) >> 16u64) & 0xF == (b >> 4u64) & 0xF,
        (transpose_board(b) >> 20u64) & 0xF == (b >> 20u64) & 0xF,
        (transpose_board(b) >> 24u64) & 0xF == (b >> 36u64) & 0xF,
        (transpose_board(b) >> 28u64) & 0xF == (b >> 52u64) & 0xF,
        (transpose_board(b) >> 32u64) & 0xF == (b >> 8u64) & 0xF,
        (transpose_board(b) >> 36u64) & 0xF == (b >> 24u64) & 0xF,
        (transpose_board(b) >> 40u64) & 0xF == (b >> 40u64) & 0xF,
        (transpose_board(b) >> 44u64) & 0xF == (b >> 56u64) & 0xF,
        (transpose_board(b) >> 48u64) & 0xF == (b >> 12u64) & 0xF,
        (transpose_board(b) >> 52u64) & 0xF == (b >> 28u64) & 0xF,
        (transpose_board(b) >> 56u64) & 0xF == (b >> 44u64) & 0xF,
        (transpose_board(b) >> 60u64) & 0xF == (b >> 60u64) & 0xF,
{
}

/// Cell `(x, y)` of the transpose is cell `(y, x)` of the argument.
pub proof fn lemma_transpose_nib(b: u64)
    ensures
        forall|x: int, y: int|
            0 <= x < 4 && 0 <= y < 4 ==> #[trigger] bnib(transpose_board(b), 4 * y + x) == bnib(b, 4 * x + y),
{
    lemma_transpose_bv(b);
    assert forall|x: int, y: int| 0 <= x < 4 && 0 <= y < 4 implies
        #[trigger] bnib(transpose_board(b), 4 * y + x) == bnib(b, 4 * x + y) by {
        let k = 4 * y + x;
        let m = 4 * x + y;
        assert((4 * k) as u64 == (16 * y + 4 * x) as u64);
        assert((4 * m) as u64 == (16 * x + 4 * y) as u64);
    }
}

/// Transposing twice gives the board back.
pub proof fn lemma_transpose_involution(b: u64)
    ensures
        transpose_board(transpose_board(b)) == b,
{
    lemma_transpose_nib(b);
    lemma_transpose_nib(transpose_board(b));
    assert forall|i: int| 0 <= i < 16 implies
        bnib(transpose_board(transpose_board(b)), i) == bnib(b, i) by {
        let y = i / 4;
        let x = i % 4;
        assert(i == 4 * y + x);
        assert(bnib(transpose_board(transpose_board(b)), 4 * y + x)
            == bnib(transpose_board(b), 4 * x + y));
        assert(bnib(transpose_board(b), 4 * x + y) == bnib(b, 4 * y + x));
    }
    lemma_board_nib_ext(transpose_board(transpose_board(b)), b);
}

/// The rows of the transpose are the columns of the argument.
pub proof fn lemma_transpose_rows(b: u64)
    ensures
        forall|i: int| 0 <= i < 4 ==> board_row(transpose_board(b), i) == board_col(b, i),
{
    lemma_transpose_nib(b);
    assert forall|i: int| 0 <= i < 4 implies board_row(transpose_board(b), i)
        == board_col(b, i) by {
        assert forall|j: int| 0 <= j < 4 implies board_row(transpose_board(b), i)[j]
            == board_col(b, i)[j] by {
            lemma_board_row_nib(transpose_board(b), i, j);
            assert(bnib(transpose_board(b), 4 * i + j) == bnib(b, 4 * j + i));
        }
        assert(board_row(transpose_board(b), i) =~= board_col(b, i));
    }
}

/// The aggregates of a board are sums over its sixteen cells, so the
/// transpose preserves score, empties, and face value.
#[verifier::rlimit(80)]
pub proof fn lemma_transpose_aggregates(b: u64)
    ensures
        board_score(transpose_board(b)) == board_score(b),
        board_empties(transpose_board(b)) == board_empties(b),
        board_value(transpose_board(b)) == board_value(b),
{
    let t = transpose_board(b);
    lemma_transpose_rows(b);
    lemma_board_row_nib(b, 0, 0);
    lemma_board_row_nib(b, 0, 1);
    lemma_board_row_nib(b, 0, 2);
    lemma_board_row_nib(b, 0, 3);
    lemma_board_row_nib(b, 1, 0);
    lemma_board_row_nib(b, 1, 1);
    lemma_board_row_nib(b, 1, 2);
    lemma_board_row_nib(b, 1, 3);
    lemma_board_row_nib(b, 2, 0);
    lemma_board_row_nib(b, 2, 1);
    lemma_board_row_nib(b, 2, 2);
    lemma_board_row_nib(b, 2, 3);
    lemma_board_row_nib(b, 3, 0);
    lemma_board_row_nib(b, 3, 1);
    lemma_board_row_nib(b, 3, 2);
    lemma_board_row_nib(b, 3, 3);
    let r0 = board_row(b, 0);
    let r1 = board_row(b, 1);
    let r2 = board_row(b, 2);
    let r3 = board_row(b, 3);
    let c0 = board_row(t, 0);
    let c1 = board_row(t, 1);
    let c2 = board_row(t, 2);
    let c3 = board_row(t, 3);
    assert(c0 == board_col(b, 0) && c1 == board_col(b, 1) && c2 == board_col(b, 2)
        && c3 == board_col(b, 3));
    assert(c0[0] == r0[0] && c0[1] == r1[0] && c0[2] == r2[0] && c0[3] == r3[0]);
    assert(c1[0] == r0[1] && c1[1] == r1[1] && c1[2] == r2[1] && c1[3] == r3[1]);
    assert(c2[0] == r0[2] && c2[1] == r1[2] && c2[2] == r2[2] && c2[3] == r3[2]);
    assert(c3[0] == r0[3] && c3[1] == r1[3] && c3[2] == r2[3] && c3[3] == r3[3]);
    assert(row_score(c0) + row_score(c1) + row_score(c2) + row_score(c3) == row_score(r0)
        + row_score(r1) + row_score(r2) + row_score(r3));
    assert(row_empties(c0) + row_empties(c1) + row_empties(c2) + row_empties(c3) == row_empties(r0)
        + row_empties(r1) + row_empties(r2) + row_empties(r3));
    assert(row_value(c0) + row_value(c1) + row_value(c2) + row_value(c3) == row_value(r0)
        + row_value(r1) + row_value(r2) + row_value(r3));
}

/// Packing the tiles of a packed row gives the row back.
pub proof fn lemma_pack_row_id(bits: u16)
    ensures
        pack_row(row_tiles(bits)) == bits,
{
    lemma_row_tiles_valid(bits);
    lemma_pack_row_tiles(row_tiles(bits));
    let p = pack_row(row_tiles(bits));
    assert forall|i: int| 0 <= i < 4 implies nib16(p, i) == nib16(bits, i) by {
        assert(row_tiles(p)[i] == row_tiles(bits)[i]);
    }
    assert((p >> 0u16) & 0xF == (bits >> 0u16) & 0xF && (p >> 4u16) & 0xF == (bits >> 4u16) & 0xF
        && (p >> 8u16) & 0xF == (bits >> 8u16) & 0xF && (p >> 12u16) & 0xF == (bits >> 12u16) & 0xF
        ==> p == bits) by (bit_vector);
    assert(nib16(p, 0) == (p >> 0u16) & 0xF && nib16(bits, 0) == (bits >> 0u16) & 0xF);
    assert(nib16(p, 1) == (p >> 4u16) & 0xF && nib16(bits, 1) == (bits >> 4u16) & 0xF);
    assert(nib16(p, 2) == (p >> 8u16) & 0xF && nib16(bits, 2) == (bits >> 8u16) & 0xF);
    assert(nib16(p, 3) == (p >> 12u16) & 0xF && nib16(bits, 3) == (bits >> 12u16) & 0xF);
}

/// The left-table entry for a row: its slide, packed.
pub open spec fn left_entry(row: Row) -> u16 {
    pack_row(slide(row@))
}

/// The right-table entry for a row: its right slide, packed.
pub open spec fn right_entry(row: Row) -> u16 {
    pack_row(slide_right(row@))
}

/// The up-table entry for a row: its slide spread into a column pattern.
pub open spec fn up_entry(row: Row) -> u64 {
    col_pattern(slide(row@))
}

/// The down-table entry for a row: its right slide as a column pattern.
pub open spec fn down_entry(row: Row) -> u64 {
    col_pattern(slide_right(row@))
}

/// The precomputed per-row move tables: the left and right slide of every
/// row as a packed row, and the same slides spread into column patterns for
/// the vertical moves.
pub struct MoveTables {
    pub left: LookupTable<u16>,
    pub right: LookupTable<u16>,
    pub up: LookupTable<u64>,
    pub down: LookupTable<u64>,
}

impl MoveTables {
    /// Every table is full and holds the slide of each row.
    pub open spec fn wf(&self) -> bool {
        &&& self.left.wf()
        &&& self.right.wf()
        &&& self.up.wf()
        &&& self.down.wf()
        &&& forall|i: int|
            0 <= i < 0x10000 ==> #[trigger] self.left.entries@[i] == pack_row(
                slide(row_tiles(i as u16)),
            )
        &&& forall|i: int|
            0 <= i < 0x10000 ==> #[trigger] self.right.entries@[i] == pack_row(
                slide_right(row_tiles(i as u16)),
            )
        &&& forall|i: int|
            0 <= i < 0x10000 ==> #[trigger] self.up.entries@[i] == col_pattern(
                slide(row_tiles(i as u16)),
            )
        &&& forall|i: int|
            0 <= i < 0x10000 ==> #[trigger] self.down.entries@[i] == col_pattern(
                slide_right(row_tiles(i as u16)),
            )
    }

    /// Builds the four tables by sliding every one of the 65 536 rows once.
    pub fn new() -> (r: MoveTables)
        ensures
            r.wf(),
    {
        let left: LookupTable<u16> = LookupTable::new(
            (|row: Row| -> (v: u16)
                ensures
                    v == left_entry(row),
                {
                    let m = row.moved();
                    proof {
                        lemma_pack_row_id(m.0);
                    }
                    m.as_u16()
                }),
        );
        let right: LookupTable<u16> = LookupTable::new(
            (|row: Row| -> (v: u16)
                ensures
                    v == right_entry(row),
                {
                    let m = row.reversed().moved().reversed();
                    proof {
                        lemma_pack_row_id(m.0);
                    }
                    m.as_u16()
                }),
        );
        let up: LookupTable<u64> = LookupTable::new(
            (|row: Row| -> (v: u64)
                ensures
                    v == up_entry(row),
                {
                    row.moved().as_column()
                }),
        );
        let down: LookupTable<u64> = LookupTable::new(
            (|row: Row| -> (v: u64)
                ensures
                    v == down_entry(row),
                {
                    row.reversed().moved().reversed().as_column()
                }),
        );
        let r = MoveTables { left, right, up, down };
        r
    }
}

/// The 4x4 board: sixteen tile exponents packed little-endian by
/// `y * 4 + x`, four bits each.
#[derive(Clone, Copy, PartialEq, Eq, Structural, Debug, Hash)]
pub struct Board(pub u64);

impl Board {
    /// Builds a board directly from its packed bits.
    pub fn from_u64(bitboard: u64) -> (r: Board)
        ensures
            r.0 == bitboard,
    {
        Board(bitboard)
    }

    /// The tile exponent at column `x`, row `y`.
    pub fn at(self, x: u64, y: u64) -> (r: u64)
        requires
            x < 4,
            y < 4,
        ensures
            r == bnib(self.0, 4 * y + x),
    {
        let tile_index = y * 4 + x;
        let sh = tile_index * 4;
        let r = (self.0 >> sh) & 0xF;
        proof {
            let bb = self.0;
            assert((bb >> sh) & 0xF < 16) by (bit_vector);
            assert((4 * (4 * (y as int) + (x as int))) as u64 == sh);
        }
        r
    }

    /// Row `i` of the board as a packed row.
    pub fn row_at(self, i: usize) -> (r: Row)
        requires
            i < 4,
        ensures
            r.0 == brow16(self.0, i as int),
            r@ == board_row(self.0, i as int),
    {
        let bits = ((self.0 >> ((i as u64) * 16)) & 0xFFFF) as u16;
        proof {
            assert((16 * (i as int)) as u64 == (i as u64) * 16);
        }
        Row::from_u16(bits)
    }

    /// Column `i` of the board as a packed row, top to bottom.
    pub fn column_at(self, i: usize) -> (r: Row)
        requires
            i < 4,
        ensures
            r@ == board_col(self.0, i as int),
    {
        let bb = self.0 >> (4 * (i as u64));
        let c1 = (bb & 0xF) as u16;
        let c2 = ((bb >> 12u64) & 0xF0) as u16;
        let c3 = ((bb >> 24u64) & 0xF00) as u16;
        let c4 = ((bb >> 36u64) & 0xF000) as u16;
        let r = Row::from_u16(c4 | c3 | c2 | c1);
        proof {
            lemma_column_at_bv(self.0, i as u64);
            let ii = i as int;
            assert((4 * (ii + 0)) as u64 == 4 * (i as u64) + 0);
            assert((4 * (ii + 4)) as u64 == 4 * (i as u64) + 16);
            assert((4 * (ii + 8)) as u64 == 4 * (i as u64) + 32);
            assert((4 * (ii + 12)) as u64 == 4 * (i as u64) + 48);
            assert((4 * 0) as u16 == 0u16 && (4 * 1) as u16 == 4u16 && (4 * 2) as u16 == 8u16
                && (4 * 3) as u16 == 12u16);
            assert(r@[0] == board_col(self.0, ii)[0]);
            assert(r@[1] == board_col(self.0, ii)[1]);
            assert(r@[2] == board_col(self.0, ii)[2]);
            assert(r@[3] == board_col(self.0, ii)[3]);
            assert(r@ =~= board_col(self.0, ii));
        }
        r
    }

    /// The total score of the board.
    pub fn score(self) -> (r: u64)
        ensures
            r == board_score(self.0),
            r <= 16 * 458752,
    {
        let s0 = self.row_at(0).score();
        let s1 = self.row_at(1).score();
        let s2 = self.row_at(2).score();
        let s3 = self.row_at(3).score();
        (s0 as u64) + (s1 as u64) + (s2 as u64) + (s3 as u64)
    }

    /// The number of empty cells on the board.
    pub fn count_empties(self) -> (r: u64)
        ensures
            r == board_empties(self.0),
    {
        let e0 = self.row_at(0).count_empties();
        let e1 = self.row_at(1).count_empties();
        let e2 = self.row_at(2).count_empties();
        let e3 = self.row_at(3).count_empties();
        e0 + e1 + e2 + e3
    }

    /// The largest tile exponent on the board.
    pub fn highest_tile(self) -> (r: u64)
        ensures
            forall|i: int, j: int| 0 <= i < 4 && 0 <= j < 4 ==> #[trigger] board_row(self.0, i)[j]
                <= r,
            exists|i: int, j: int| 0 <= i < 4 && 0 <= j < 4 && #[trigger] board_row(self.0, i)[j]
                == r,
    {
        let mut best: u16 = self.row_at(0).tile_at(0);
        let mut i: usize = 0;
        while i < 4
            invariant
                i <= 4,
                forall|a: int, j: int|
                    0 <= a < i && 0 <= j < 4 ==> #[trigger] board_row(self.0, a)[j] <= best,
                exists|a: int, j: int|
                    0 <= a < 4 && 0 <= j < 4 && #[trigger] board_row(self.0, a)[j] == best,
            decreases 4 - i
        {
            let row = self.row_at(i);
            let mut j: usize = 0;
            while j < 4
                invariant
                    i < 4,
                    j <= 4,
                    row@ == board_row(self.0, i as int),
                    forall|a: int, jj: int|
                        0 <= a < i && 0 <= jj < 4 ==> #[trigger] board_row(self.0, a)[jj] <= best,
                    forall|jj: int|
                        0 <= jj < j ==> #[trigger] board_row(self.0, i as int)[jj] <= best,
                    exists|a: int, jj: int|
                        0 <= a < 4 && 0 <= jj < 4 && #[trigger] board_row(self.0, a)[jj] == best,
                decreases 4 - j
            {
                let t = row.tile_at(j);
                if t > best {
                    best = t;
                }
                j = j + 1;
            }
            i = i + 1;
        }
        best as u64
    }

    /// The transpose of the board, swapping rows and columns. Applying it
    /// twice gives the board back (`lemma_transpose_involution`).
    pub fn transpose(self) -> (r: Board)
        ensures
            r.0 == transpose_board(self.0),
    {
        let x = self.0;
        let a1 = x & 0xF0F0_0F0F_F0F0_0F0F;
        let a2 = x & 0x0000_F0F0_0000_F0F0;
        let a3 = x & 0x0F0F_0000_0F0F_0000;
        let a = a1 | (a2 << 12u64) | (a3 >> 12u64);
        let b1 = a & 0xFF00_FF00_00FF_00FF;
        let b2 = a & 0x00FF_00FF_0000_0000;
        let b3 = a & 0x0000_0000_FF00_FF00;
        Board(b1 | (b2 >> 24u64) | (b3 << 24u64))
    }

    /// The board after a slide in the given direction, with no tile
    /// spawned: each row (or column, for the vertical moves) is replaced by
    /// its slide, looked up in the precomputed tables.
    pub fn move_candidate(self, direction: Direction, tables: &MoveTables) -> (r: Board)
        requires
            tables.wf(),
        ensures
            r.0 == move_board(self.0, direction),
    {
        match direction {
            Direction::Left => {
                let l0 = *tables.left.index(self.row_at(0));
                let l1 = *tables.left.index(self.row_at(1));
                let l2 = *tables.left.index(self.row_at(2));
                let l3 = *tables.left.index(self.row_at(3));
                let res = (l0 as u64) | ((l1 as u64) << 16u64) | ((l2 as u64) << 32u64)
                    | ((l3 as u64) << 48u64);
                Board(res)
            }
            Direction::Right => {
                let l0 = *tables.right.index(self.row_at(0));
                let l1 = *tables.right.index(self.row_at(1));
                let l2 = *tables.right.index(self.row_at(2));
                let l3 = *tables.right.index(self.row_at(3));
                let res = (l0 as u64) | ((l1 as u64) << 16u64) | ((l2 as u64) << 32u64)
                    | ((l3 as u64) << 48u64);
                Board(res)
            }
            Direction::Up => {
                let tb = self.transpose();
                let u0 = *tables.up.index(tb.row_at(0));
                let u1 = *tables.up.index(tb.row_at(1));
                let u2 = *tables.up.index(tb.row_at(2));
                let u3 = *tables.up.index(tb.row_at(3));
                let res = u0 | (u1 << 4u64) | (u2 << 8u64) | (u3 << 12u64);
                proof {
                    lemma_board_rows_valid(tb.0);
                    crate::row::lemma_slide_valid(board_row(tb.0, 0));
                    crate::row::lemma_slide_valid(board_row(tb.0, 1));
                    crate::row::lemma_slide_valid(board_row(tb.0, 2));
                    crate::row::lemma_slide_valid(board_row(tb.0, 3));
                    lemma_vertical_assembly(
                        slide(board_row(tb.0, 0)),
                        slide(board_row(tb.0, 1)),
                        slide(board_row(tb.0, 2)),
                        slide(board_row(tb.0, 3)),
                    );
                }
                Board(res)
            }
            Direction::Down => {
                let tb = self.transpose();
                let d0 = *tables.down.index(tb.row_at(0));
                let d1 = *tables.down.index(tb.row_at(1));
                let d2 = *tables.down.index(tb.row_at(2));
                let d3 = *tables.down.index(tb.row_at(3));
                let res = d0 | (d1 << 4u64) | (d2 << 8u64) | (d3 << 12u64);
                proof {
                    lemma_board_rows_valid(tb.0);
                    lemma_slide_right_valid(board_row(tb.0, 0));
                    lemma_slide_right_valid(board_row(tb.0, 1));
                    lemma_slide_right_valid(board_row(tb.0, 2));
                    lemma_slide_right_valid(board_row(tb.0, 3));
                    lemma_vertical_assembly(
                        slide_right(board_row(tb.0, 0)),
                        slide_right(board_row(tb.0, 1)),
                        slide_right(board_row(tb.0, 2)),
                        slide_right(board_row(tb.0, 3)),
                    );
                }
                Board(res)
            }
        }
    }

    /// The legal moves of the board, in the order Left, Right, Up, Down:
    /// exactly the directions whose slide changes the board, each with the
    /// board it produces.
    pub fn gen_moves(self, tables: &MoveTables) -> (r: Vec<(Direction, Board)>)
        requires
            tables.wf(),
        ensures
            moves_view(r@) == legal_moves(self.0),
            forall|k: int|
                0 <= k < r@.len() ==> (#[trigger] r@[k]).1.0 == move_board(self.0, r@[k].0),
    {
        let mut result: Vec<(Direction, Board)> = Vec::new();
        let cl = self.move_candidate(Direction::Left, tables);
        let cr = self.move_candidate(Direction::Right, tables);
        let cu = self.move_candidate(Direction::Up, tables);
        let cd = self.move_candidate(Direction::Down, tables);
        let ghost pl = if move_board(self.0, Direction::Left) != self.0 {
            seq![(Direction::Left, move_board(self.0, Direction::Left))]
        } else {
            Seq::<(Direction, u64)>::empty()
        };
        let ghost pr = if move_board(self.0, Direction::Right) != self.0 {
            seq![(Direction::Right, move_board(self.0, Direction::Right))]
        } else {
            Seq::<(Direction, u64)>::empty()
        };
        let ghost pu = if move_board(self.0, Direction::Up) != self.0 {
            seq![(Direction::Up, move_board(self.0, Direction::Up))]
        } else {
            Seq::<(Direction, u64)>::empty()
        };
        let ghost pd = if move_board(self.0, Direction::Down) != self.0 {
            seq![(Direction::Down, move_board(self.0, Direction::Down))]
        } else {
            Seq::<(Direction, u64)>::empty()
        };
        if cl.0 != self.0 {
            result.push((Direction::Left, cl));
        }
        proof {
            assert(moves_view(result@) =~= pl);
        }
        if cr.0 != self.0 {
            result.push((Direction::Right, cr));
        }
        proof {
            assert(moves_view(result@) =~= pl + pr);
        }
        if cu.0 != self.0 {
            result.push((Direction::Up, cu));
        }
        proof {
            assert(moves_view(result@) =~= pl + pr + pu);
        }
        if cd.0 != self.0 {
            result.push((Direction::Down, cd));
        }
        proof {
            assert(moves_view(result@) =~= pl + pr + pu + pd);
            assert(legal_moves(self.0) == pl + pr + pu + pd);
        }
        result
    }

    /// A dead board: no direction changes it, so the game is over.
    pub fn is_dead(self, tables: &MoveTables) -> (r: bool)
        requires
            tables.wf(),
        ensures
            r == is_dead_board(self.0),
    {
        let moves = self.gen_moves(tables);
        let r = moves.len() == 0;
        proof {
            assert(moves_view(moves@).len() == moves@.len());
        }
        r
    }

    /// Every spawn event of this afterstate: each empty cell once with a
    /// 2-tile and once with a 4-tile, each event carrying its exact
    /// probability over the shared denominator `10 * empties`.
    pub fn gen_tile_spawns(self) -> (r: Vec<(SpawnProb, TileSpawn, Board)>)
        ensures
            r@.len() == spawns(self.0).len(),
            forall|k: int|
                0 <= k < r@.len() ==> {
                    let ev = #[trigger] r@[k];
                    &&& ev.1 == spawns(self.0)[k].0
                    &&& ev.2.0 == spawns(self.0)[k].1
                    &&& ev.0.num == rel_prob(ev.1)
                    &&& ev.0.den == 10 * board_empties(self.0)
                },
    {
        let n = self.count_empties();
        proof {
            lemma_board_empties_bound(self.0);
        }
        let den: u32 = 10 * (n as u32);
        let mut result: Vec<(SpawnProb, TileSpawn, Board)> = Vec::new();
        let mut k: usize = 0;
        while k < 16
            invariant
                k <= 16,
                den == 10 * board_empties(self.0),
                spawns(self.0) =~= spawn_view(result@) + spawn_list(self.0, k as int),
                forall|m: int|
                    0 <= m < result@.len() ==> {
                        let ev = #[trigger] result@[m];
                        &&& ev.0.num == rel_prob(ev.1)
                        &&& ev.0.den == 10 * board_empties(self.0)
                    },
            decreases 16 - k
        {
            let sh = (k as u64) * 4;
            if (self.0 >> sh) & 0xF == 0 {
                proof {
                    assert((4 * (k as int)) as u64 == sh);
                }
                let two = Board(self.0 | (1u64 << sh));
                let four = Board(self.0 | (2u64 << sh));
                result.push((SpawnProb { num: 9, den }, TileSpawn::Two, two));
                result.push((SpawnProb { num: 1, den }, TileSpawn::Four, four));
                proof {
                    assert(two.0 == spawn_at(self.0, k as int, 1)
                        && four.0 == spawn_at(self.0, k as int, 2));
                    assert(spawn_view(result@) =~= spawn_view(result@.subrange(
                        0,
                        result@.len() - 2,
                    )) + seq![
                        (TileSpawn::Two, spawn_at(self.0, k as int, 1)),
                        (TileSpawn::Four, spawn_at(self.0, k as int, 2)),
                    ]);
                    assert(spawn_list(self.0, k as int) == seq![
                        (TileSpawn::Two, spawn_at(self.0, k as int, 1)),
                        (TileSpawn::Four, spawn_at(self.0, k as int, 2)),
                    ] + spawn_list(self.0, k as int + 1));
                    assert(spawns(self.0) =~= spawn_view(result@) + spawn_list(
                        self.0,
                        k as int + 1,
                    ));
                }
            } else {
                proof {
                    assert((4 * (k as int)) as u64 == sh);
                    assert(bnib(self.0, k as int) != 0) by {
                        let bb = self.0;
                        assert((bb >> sh) & 0xF < 16) by (bit_vector);
                    }
                    assert(spawn_list(self.0, k as int) == spawn_list(self.0, k as int + 1));
                }
            }
            k = k + 1;
        }
        proof {
            assert(spawn_list(self.0, 16) =~= Seq::<(TileSpawn, u64)>::empty());
            assert(spawns(self.0) =~= spawn_view(result@));
            assert forall|m: int| 0 <= m < result@.len() implies (#[trigger] result@[m]).1
                == spawns(self.0)[m].0 && result@[m].2.0 == spawns(self.0)[m].1 by {
                assert(spawn_view(result@)[m] == (result@[m].1, result@[m].2.0));
            }
        }
        result
    }

    /// Places one random tile: a uniform draw picks the empty cell and
    /// whether a 2 or a 4 appears, with odds 9 to 1. The result is one of
    /// the spawn events of this afterstate.
    pub fn spawn_random_tile(self) -> (r: Board)
        requires
            board_empties(self.0) >= 1,
        ensures
            exists|i: int|
                0 <= i < 16 && bnib(self.0, i) == 0 && (r.0 == spawn_at(self.0, i, 1) || r.0
                    == spawn_at(self.0, i, 2)),
            board_empties(r.0) == board_empties(self.0) - 1,
            board_value(self.0) + 2 <= board_value(r.0) <= board_value(self.0) + 4,
    {
        let n = self.count_empties();
        let u = rand_below(10 * n);
        let cell = u / 10;
        let e: u64 = if u % 10 == 0 {
            2
        } else {
            1
        };
        assert(cell < n) by (nonlinear_arith)
            requires u < 10 * n, cell == u / 10, n >= 1
        ;
        proof {
            lemma_empties_from_board(self.0);
        }
        let mut k: usize = 0;
        let mut seen: u64 = 0;
        while k < 16
            invariant
                k <= 16,
                n == board_empties(self.0),
                cell < n,
                seen <= cell,
                empties_from(self.0, k as int) == n - seen,
                1 <= e <= 2,
            decreases 16 - k
        {
            let sh = (k as u64) * 4;
            let empty = (self.0 >> sh) & 0xF == 0;
            proof {
                assert((4 * (k as int)) as u64 == sh);
                assert(bnib(self.0, k as int) == 0 <==> (self.0 >> sh) & 0xF == 0) by {
                    let bb = self.0;
                    assert((bb >> sh) & 0xF < 16) by (bit_vector);
                }
            }
            if empty {
                if seen == cell {
                    let r = Board(self.0 | (e << sh));
                    proof {
                        lemma_spawn_facts(self.0, k as int, e as u16);
                        lemma_spawn_tile_values();
                        assert(r.0 == spawn_at(self.0, k as int, e as u16));
                    }
                    return r;
                }
                seen = seen + 1;
            }
            k = k + 1;
        }
        proof {
            assert(empties_from(self.0, 16) == 0);
            assert(false);
        }
        unreached()
    }

    /// Slides the board in the given direction and spawns one random tile
    /// on the resulting afterstate. The afterstate must have room: a legal
    /// move always leaves room, and the caller of an illegal one must know
    /// the board has an empty cell.
    pub fn make_move(self, direction: Direction, tables: &MoveTables) -> (r: Board)
        requires
            tables.wf(),
            board_empties(move_board(self.0, direction)) >= 1,
        ensures
            exists|i: int|
                0 <= i < 16 && bnib(move_board(self.0, direction), i) == 0 && (r.0 == spawn_at(
                    move_board(self.0, direction),
                    i,
                    1,
                ) || r.0 == spawn_at(move_board(self.0, direction), i, 2)),
            board_empties(r.0) == board_empties(move_board(self.0, direction)) - 1,
            board_value(self.0) + 2 <= board_value(r.0) <= board_value(self.0) + 4,
    {
        let candidate = self.move_candidate(direction, tables);
        proof {
            lemma_move_board_facts(self.0, direction);
        }
        candidate.spawn_random_tile()
    }

    /// A fresh starting board: two random tiles, each a 2 or a 4, on an
    /// otherwise empty board.
    pub fn new_random() -> (r: Board)
        ensures
            board_empties(r.0) == 14,
            forall|k: int| 0 <= k < 16 ==> bnib(r.0, k) <= 2,
            4 <= board_value(r.0) <= 8,
    {
        proof {
            lemma_zero_board();
        }
        let one = Board(0).spawn_random_tile();
        let two = one.spawn_random_tile();
        proof {
            lemma_spawn_small_tiles(0u64, one.0);
            lemma_spawn_small_tiles(one.0, two.0);
        }
        two
    }
}

/// The view of a spawn-event list: each entry as its kind and packed
/// board.
pub open spec fn spawn_view(v: Seq<(SpawnProb, TileSpawn, Board)>) -> Seq<(TileSpawn, u64)> {
    v.map_values(|p: (SpawnProb, TileSpawn, Board)| (p.1, p.2.0))
}

/// On a dead board every row is fixed by both slides.
proof fn lemma_dead_rows_fixed(b: u64)
    requires
        is_dead_board(b),
    ensures
        forall|i: int| 0 <= i < 4 ==> slide(#[trigger] board_row(b, i)) == board_row(b, i),
        forall|i: int| 0 <= i < 4 ==> slide_right(#[trigger] board_row(b, i)) == board_row(b, i),
{
    assert(move_left_board(b) == b) by {
        lemma_legal_moves_char(b, Direction::Left);
        if move_board(b, Direction::Left) != b {
            let k = choose|k: int|
                0 <= k < legal_moves(b).len() && (#[trigger] legal_moves(b)[k]).0
                    == Direction::Left;
        }
    }
    assert(move_right_board(b) == b) by {
        lemma_legal_moves_char(b, Direction::Right);
        if move_board(b, Direction::Right) != b {
            let k = choose|k: int|
                0 <= k < legal_moves(b).len() && (#[trigger] legal_moves(b)[k]).0
                    == Direction::Right;
        }
    }
    lemma_board_rows_valid(b);
    assert forall|i: int| 0 <= i < 4 implies slide(#[trigger] board_row(b, i)) == board_row(b, i)
        && slide_right(board_row(b, i)) == board_row(b, i) by {
        lemma_pack_rows_rows(
            pack_row(slide(board_row(b, 0))),
            pack_row(slide(board_row(b, 1))),
            pack_row(slide(board_row(b, 2))),
            pack_row(slide(board_row(b, 3))),
        );
        lemma_pack_rows_rows(
            pack_row(slide_right(board_row(b, 0))),
            pack_row(slide_right(board_row(b, 1))),
            pack_row(slide_right(board_row(b, 2))),
            pack_row(slide_right(board_row(b, 3))),
        );
        assert(pack_row(slide(board_row(b, i))) == brow16(b, i));
        assert(pack_row(slide_right(board_row(b, i))) == brow16(b, i));
        crate::row::lemma_slide_valid(board_row(b, i));
        lemma_slide_right_valid(board_row(b, i));
        lemma_pack_row_tiles(slide(board_row(b, i)));
        lemma_pack_row_tiles(slide_right(board_row(b, i)));
        assert(slide(board_row(b, i)) == row_tiles(brow16(b, i)));
        assert(slide_right(board_row(b, i)) == row_tiles(brow16(b, i)));
    }
}

/// A dead board that holds any tile at all holds a tile of exponent at
/// least 2, so its score is positive: a board of empty cells and 2-tiles
/// only always has a move left.
#[verifier::rlimit(100)]
#[verifier::spinoff_prover]
pub proof fn lemma_dead_board_score(b: u64)
    requires
        is_dead_board(b),
        board_value(b) >= 1,
    ensures
        board_score(b) >= 4,
{
    lemma_dead_rows_fixed(b);
    lemma_board_rows_valid(b);
    if forall|i: int, j: int| 0 <= i < 4 && 0 <= j < 4 ==> (#[trigger] board_row(b, i)[j]) <= 1 {
        lemma_dead_small_row(b, 0);
        lemma_dead_small_row(b, 1);
        lemma_dead_small_row(b, 2);
        lemma_dead_small_row(b, 3);
    } else {
        let (i, j) = choose|i: int, j: int|
            0 <= i < 4 && 0 <= j < 4 && (#[trigger] board_row(b, i)[j]) > 1;
        crate::row::lemma_big_tile_score(board_row(b, i)[j]);
        assert forall|a: int, c: int| 0 <= a < 4 && 0 <= c < 4 implies 0 <= tile_score(
            #[trigger] board_row(b, a)[c],
        ) by {
            crate::row::lemma_tile_score_bound(board_row(b, a)[c]);
        }
        assert(row_score(board_row(b, i)) >= 4);
    }
}

/// One row of a dead board of empty cells and 2-tiles only contributes
/// no face value.
proof fn lemma_dead_small_row(b: u64, i: int)
    requires
        0 <= i < 4,
        slide(board_row(b, i)) == board_row(b, i),
        slide_right(board_row(b, i)) == board_row(b, i),
        forall|j: int| 0 <= j < 4 ==> (#[trigger] board_row(b, i)[j]) <= 1,
    ensures
        row_value(board_row(b, i)) == 0,
{
    lemma_row_tiles_valid(brow16(b, i));
    crate::row::lemma_fixed_small_row_zero(board_row(b, i));
}

/// A spawn on a board of tiles at most 2 leaves every tile at most 2.
pub proof fn lemma_spawn_small_tiles(b: u64, r: u64)
    requires
        forall|k: int| 0 <= k < 16 ==> bnib(b, k) <= 2,
        exists|i: int|
            0 <= i < 16 && bnib(b, i) == 0 && (r == spawn_at(b, i, 1) || r == spawn_at(b, i, 2)),
    ensures
        forall|k: int| 0 <= k < 16 ==> bnib(r, k) <= 2,
{
    let i = choose|i: int|
        0 <= i < 16 && bnib(b, i) == 0 && (r == spawn_at(b, i, 1) || r == spawn_at(b, i, 2));
    let e: u16 = if r == spawn_at(b, i, 1) {
        1
    } else {
        2
    };
    lemma_spawn_facts(b, i, e);
    assert forall|k: int| 0 <= k < 16 implies bnib(r, k) <= 2 by {
        assert(r == spawn_at(b, i, e));
        if k != i {
            assert(bnib(spawn_at(b, i, e), k) == bnib(b, k));
        } else {
            assert(bnib(spawn_at(b, i, e), k) == e);
        }
    }
}

/// A move followed by a spawn costs at most one empty cell: the slide
/// never loses empties and the spawned tile fills exactly one.
pub proof fn lemma_make_move_empties(b: u64, d: Direction, i: int, e: u16)
    requires
        0 <= i < 16,
        bnib(move_board(b, d), i) == 0,
        1 <= e <= 2,
    ensures
        board_empties(spawn_at(move_board(b, d), i, e)) >= board_empties(b) - 1,
{
    lemma_move_board_facts(b, d);
    lemma_spawn_facts(move_board(b, d), i, e);
}

/// The symmetry of the move tables: the reverse of a row's left slide is
/// the right slide of the reversed row.
pub proof fn lemma_move_tables_symmetry(t: &MoveTables, bits: u16)
    requires
        t.wf(),
    ensures
        rev4(row_tiles(t.left.entries@[bits as int])) == row_tiles(
            t.right.entries@[pack_row(rev4(row_tiles(bits))) as int],
        ),
{
    lemma_row_tiles_valid(bits);
    let tiles = row_tiles(bits);
    let rb = pack_row(rev4(tiles));
    lemma_pack_row_tiles(rev4(tiles));
    crate::row::lemma_slide_valid(tiles);
    lemma_pack_row_tiles(slide(tiles));
    lemma_slide_right_valid(rev4(tiles));
    lemma_pack_row_tiles(slide_right(rev4(tiles)));
    lemma_rev4_involution(tiles);
    assert(t.left.entries@[bits as int] == pack_row(slide(tiles)));
    assert(row_tiles(t.right.entries@[rb as int]) == slide_right(row_tiles(rb)));
    assert(slide_right(rev4(tiles)) == rev4(slide(rev4(rev4(tiles)))));
}

/// The total face value of a board is at most `16 * 2^15`.
pub proof fn lemma_board_value_bound(b: u64)
    ensures
        0 <= board_value(b) <= 524288,
{
    lemma_board_rows_valid(b);
    crate::row::lemma_row_value_bound(board_row(b, 0));
    crate::row::lemma_row_value_bound(board_row(b, 1));
    crate::row::lemma_row_value_bound(board_row(b, 2));
    crate::row::lemma_row_value_bound(board_row(b, 3));
}

/// A board has at most sixteen empty cells.
pub proof fn lemma_board_empties_bound(b: u64)
    ensures
        0 <= board_empties(b) <= 16,
        0 <= board_score(b) <= 16 * 458752,
{
    lemma_board_rows_valid(b);
    crate::row::lemma_tile_score_bound(board_row(b, 0)[0]);
    assert forall|i: int, j: int| 0 <= i < 4 && 0 <= j < 4 implies 0 <= tile_score(
        #[trigger] board_row(b, i)[j],
    ) <= 458752 by {
        crate::row::lemma_tile_score_bound(board_row(b, i)[j]);
    }
}

/// The right slide of a well-formed row is well formed.
pub proof fn lemma_slide_right_valid(s: Seq<u16>)
    requires
        valid_tiles(s),
    ensures
        valid_tiles(slide_right(s)),
{
    crate::row::lemma_slide_valid(rev4(s));
}

/// The board with a tile of exponent `e` placed on cell `i`.
pub open spec fn spawn_at(b: u64, i: int, e: u16) -> u64 {
    b | ((e as u64) << ((4 * i) as u64))
}

/// The spawn events of an afterstate, from cell `i` on: every empty cell
/// contributes a 2-tile event and then a 4-tile event, in cell order.
pub open spec fn spawn_list(b: u64, i: int) -> Seq<(TileSpawn, u64)>
    decreases 16 - i
{
    if i < 0 || i >= 16 {
        Seq::<(TileSpawn, u64)>::empty()
    } else {
        let rest = spawn_list(b, i + 1);
        if bnib(b, i) == 0 {
            seq![(TileSpawn::Two, spawn_at(b, i, 1)), (TileSpawn::Four, spawn_at(b, i, 2))] + rest
        } else {
            rest
        }
    }
}

/// All spawn events of an afterstate.
pub open spec fn spawns(b: u64) -> Seq<(TileSpawn, u64)> {
    spawn_list(b, 0)
}

/// The total relative weight of a list of spawn events.
pub open spec fn sum_rel(l: Seq<(TileSpawn, u64)>) -> int
    decreases l.len()
{
    if l.len() == 0 {
        0
    } else {
        rel_prob(l[0].0) + sum_rel(l.drop_first())
    }
}

/// The number of empty cells from cell `i` on.
pub open spec fn empties_from(b: u64, i: int) -> int
    decreases 16 - i
{
    if i < 0 || i >= 16 {
        0
    } else {
        (if bnib(b, i) == 0 { 1int } else { 0 }) + empties_from(b, i + 1)
    }
}

/// One row's worth of the nibble-by-nibble empties count.
proof fn lemma_empties_quarter(b: u64, i: int)
    requires
        0 <= i < 4,
    ensures
        empties_from(b, 4 * i) == row_empties(board_row(b, i)) + empties_from(b, 4 * i + 4),
{
    lemma_board_row_nib(b, i, 0);
    lemma_board_row_nib(b, i, 1);
    lemma_board_row_nib(b, i, 2);
    lemma_board_row_nib(b, i, 3);
    assert(empties_from(b, 4 * i) == (if bnib(b, 4 * i) == 0 { 1int } else { 0 }) + empties_from(
        b,
        4 * i + 1,
    ));
    assert(empties_from(b, 4 * i + 1) == (if bnib(b, 4 * i + 1) == 0 { 1int } else { 0 })
        + empties_from(b, 4 * i + 2));
    assert(empties_from(b, 4 * i + 2) == (if bnib(b, 4 * i + 2) == 0 { 1int } else { 0 })
        + empties_from(b, 4 * i + 3));
    assert(empties_from(b, 4 * i + 3) == (if bnib(b, 4 * i + 3) == 0 { 1int } else { 0 })
        + empties_from(b, 4 * i + 4));
}

/// Counting empty cells nibble by nibble agrees with counting them row by
/// row.
pub proof fn lemma_empties_from_board(b: u64)
    ensures
        empties_from(b, 0) == board_empties(b),
{
    lemma_empties_quarter(b, 0);
    lemma_empties_quarter(b, 1);
    lemma_empties_quarter(b, 2);
    lemma_empties_quarter(b, 3);
    assert(empties_from(b, 16) == 0);
}

/// Prepending two events to a list adds their weights to its total.
proof fn lemma_sum_rel_cons2(x: (TileSpawn, u64), y: (TileSpawn, u64), r: Seq<(TileSpawn, u64)>)
    ensures
        sum_rel(seq![x, y] + r) == rel_prob(x.0) + rel_prob(y.0) + sum_rel(r),
{
    let l = seq![x, y] + r;
    assert(l[0] == x);
    assert(l.drop_first() =~= seq![y] + r);
    assert((seq![y] + r)[0] == y);
    assert((seq![y] + r).drop_first() =~= r);
    assert(sum_rel(seq![y] + r) == rel_prob(y.0) + sum_rel((seq![y] + r).drop_first()));
    assert(sum_rel(l) == rel_prob(x.0) + sum_rel(l.drop_first()));
}

/// The total relative weight of the events from cell `i` on is 10 per
/// remaining empty cell.
proof fn lemma_spawn_sum_from(b: u64, i: int)
    ensures
        sum_rel(spawn_list(b, i)) == 10 * empties_from(b, i),
    decreases 16 - i
{
    if i < 0 || i >= 16 {
    } else {
        lemma_spawn_sum_from(b, i + 1);
        if bnib(b, i) == 0 {
            lemma_sum_rel_cons2(
                (TileSpawn::Two, spawn_at(b, i, 1)),
                (TileSpawn::Four, spawn_at(b, i, 2)),
                spawn_list(b, i + 1),
            );
        }
    }
}

/// The spawn probabilities of an afterstate sum to one: each event carries
/// weight `rel` over the shared denominator `10 * empties`, and the weights
/// total exactly that denominator.
pub proof fn lemma_spawn_prob_total(b: u64)
    ensures
        sum_rel(spawns(b)) == 10 * board_empties(b),
{
    lemma_spawn_sum_from(b, 0);
    lemma_empties_from_board(b);
}

/// Placing a tile on an empty cell changes that nibble alone.
proof fn lemma_spawn_nib_bv(b: u64, i: u64, k: u64, e: u64)
    by (bit_vector)
    requires
        i < 16,
        k < 16,
        e < 16,
        (b >> (4 * i)) & 0xF == 0,
    ensures
        k == i ==> ((b | (e << (4 * i))) >> (4 * k)) & 0xF == e,
        k != i ==> ((b | (e << (4 * i))) >> (4 * k)) & 0xF == (b >> (4 * k)) & 0xF,
{
}

/// Placing a non-empty tile on an empty cell fills exactly that cell: the
/// other tiles are kept, one empty cell is used up, and the face value
/// grows by the tile's value.
#[verifier::rlimit(100)]
pub proof fn lemma_spawn_facts(b: u64, i: int, e: u16)
    requires
        0 <= i < 16,
        bnib(b, i) == 0,
        1 <= e <= 2,
    ensures
        bnib(spawn_at(b, i, e), i) == e,
        forall|k: int| 0 <= k < 16 && k != i ==> bnib(spawn_at(b, i, e), k) == bnib(b, k),
        board_empties(spawn_at(b, i, e)) == board_empties(b) - 1,
        board_value(spawn_at(b, i, e)) == board_value(b) + tile_value(e),
        board_score(spawn_at(b, i, e)) == board_score(b) + tile_score(e),
{
    let s = spawn_at(b, i, e);
    assert((b >> (4 * (i as u64))) & 0xF == 0) by {
        let iu = i as u64;
        assert((b >> (4 * iu)) & 0xF < 16) by (bit_vector);
        assert((4 * i) as u64 == 4 * iu);
        assert(((b >> (4 * iu)) & 0xF) as u16 == bnib(b, i));
    }
    assert forall|k: int| 0 <= k < 16 implies bnib(s, k) == (if k == i {
        e
    } else {
        bnib(b, k)
    }) by {
        lemma_spawn_nib_bv(b, i as u64, k as u64, e as u64);
        assert((4 * i) as u64 == 4 * (i as u64));
        assert((4 * k) as u64 == 4 * (k as u64));
        let ku = k as u64;
        let iu = i as u64;
        let ev = e as u64;
        assert(((b | (ev << (4 * iu))) >> (4 * ku)) & 0xF < 16 && (b >> (4 * ku)) & 0xF < 16)
            by (bit_vector);
        assert((4 * k) as u64 == 4 * ku);
    }
    assert forall|a: int, j: int| 0 <= a < 4 && 0 <= j < 4 implies #[trigger] board_row(s, a)[j]
        == (if 4 * a + j == i { e } else { board_row(b, a)[j] }) by {
        lemma_board_row_nib(s, a, j);
        lemma_board_row_nib(b, a, j);
    }
    let ai = i / 4;
    let ji = i % 4;
    assert(i == 4 * ai + ji);
    lemma_board_row_nib(b, ai, ji);
    lemma_board_row_nib(s, ai, ji);
    assert(board_row(s, ai)[ji] == e && board_row(b, ai)[ji] == 0);
    assert(tile_value(0u16) == 0 && tile_score(0u16) == 0);
}

/// The tile value of the two spawnable exponents.
pub proof fn lemma_spawn_tile_values()
    ensures
        tile_value(1u16) == 2,
        tile_value(2u16) == 4,
        tile_score(1u16) == 0,
        tile_score(2u16) == 4,
{
    assert((1u32 << 1u32) == 2 && (1u32 << 2u32) == 4) by (bit_vector);
}

/// An empty board: every cell of the zero bit pattern is empty.
pub proof fn lemma_zero_board()
    ensures
        forall|i: int| 0 <= i < 4 ==> #[trigger] board_row(0u64, i) =~= seq![0u16, 0u16, 0u16, 0u16],
        board_empties(0u64) == 16,
        forall|k: int| 0 <= k < 16 ==> bnib(0u64, k) == 0,
        board_value(0u64) == 0,
{
    assert forall|k: int| 0 <= k < 16 implies bnib(0u64, k) == 0 by {
        let sh = (4 * k) as u64;
        assert((0u64 >> sh) & 0xF == 0) by (bit_vector);
    }
    assert forall|i: int| 0 <= i < 4 implies #[trigger] board_row(0u64, i) =~= seq![
        0u16,
        0u16,
        0u16,
        0u16,
    ] by {
        assert forall|j: int| 0 <= j < 4 implies board_row(0u64, i)[j] == 0u16 by {
            lemma_board_row_nib(0u64, i, j);
            let sh = (4 * (4 * i + j)) as u64;
            assert((0u64 >> sh) & 0xF == 0) by (bit_vector);
        }
    }
}

/// Exactly the directions whose slide changes the board appear in the
/// legal move list, and an entry for a direction carries that direction's
/// slide.
pub proof fn lemma_legal_moves_char(b: u64, d: Direction)
    ensures
        (exists|k: int| 0 <= k < legal_moves(b).len() && (#[trigger] legal_moves(b)[k]).0 == d)
            <==> move_board(b, d) != b,
        forall|k: int|
            0 <= k < legal_moves(b).len() && (#[trigger] legal_moves(b)[k]).0 == d ==> legal_moves(
                b,
            )[k].1 == move_board(b, d),
{
    let lm = legal_moves(b);
    let pl = if move_board(b, Direction::Left) != b {
        seq![(Direction::Left, move_board(b, Direction::Left))]
    } else {
        Seq::<(Direction, u64)>::empty()
    };
    let pr = if move_board(b, Direction::Right) != b {
        seq![(Direction::Right, move_board(b, Direction::Right))]
    } else {
        Seq::<(Direction, u64)>::empty()
    };
    let pu = if move_board(b, Direction::Up) != b {
        seq![(Direction::Up, move_board(b, Direction::Up))]
    } else {
        Seq::<(Direction, u64)>::empty()
    };
    let pd = if move_board(b, Direction::Down) != b {
        seq![(Direction::Down, move_board(b, Direction::Down))]
    } else {
        Seq::<(Direction, u64)>::empty()
    };
    assert(lm == pl + pr + pu + pd);
    assert forall|k: int| 0 <= k < lm.len() implies (#[trigger] lm[k]).1 == move_board(b, lm[k].0)
        && move_board(b, lm[k].0) != b by {
        if k < pl.len() {
            assert(lm[k] == pl[k]);
        } else if k < pl.len() + pr.len() {
            assert(lm[k] == pr[k - pl.len()]);
        } else if k < pl.len() + pr.len() + pu.len() {
            assert(lm[k] == pu[k - pl.len() - pr.len()]);
        } else {
            assert(lm[k] == pd[k - pl.len() - pr.len() - pu.len()]);
        }
    }
    if move_board(b, d) != b {
        let idx: int = match d {
            Direction::Left => 0,
            Direction::Right => pl.len() as int,
            Direction::Up => (pl.len() + pr.len()) as int,
            Direction::Down => (pl.len() + pr.len() + pu.len()) as int,
        };
        assert(0 <= idx < lm.len() && lm[idx].0 == d) by {
            match d {
                Direction::Left => {
                    assert(lm[idx] == pl[0]);
                }
                Direction::Right => {
                    assert(lm[idx] == pr[0]);
                }
                Direction::Up => {
                    assert(lm[idx] == pu[0]);
                }
                Direction::Down => {
                    assert(lm[idx] == pd[0]);
                }
            }
        }
    }
}

/// The result of sliding every row of a board to the left.
pub open spec fn move_left_board(b: u64) -> u64 {
    pack_rows(
        pack_row(slide(board_row(b, 0))),
        pack_row(slide(board_row(b, 1))),
        pack_row(slide(board_row(b, 2))),
        pack_row(slide(board_row(b, 3))),
    )
}

/// The result of sliding every row of a board to the right.
pub open spec fn move_right_board(b: u64) -> u64 {
    pack_rows(
        pack_row(slide_right(board_row(b, 0))),
        pack_row(slide_right(board_row(b, 1))),
        pack_row(slide_right(board_row(b, 2))),
        pack_row(slide_right(board_row(b, 3))),
    )
}

/// The board after a slide in a given direction, before any tile spawns.
/// The vertical moves act on columns, which is a horizontal move conjugated
/// by the transpose.
pub open spec fn move_board(b: u64, d: Direction) -> u64 {
    match d {
        Direction::Left => move_left_board(b),
        Direction::Right => move_right_board(b),
        Direction::Up => transpose_board(move_left_board(transpose_board(b))),
        Direction::Down => transpose_board(move_right_board(transpose_board(b))),
    }
}

/// The legal moves of a board: the directions whose slide changes the
/// board, in the order Left, Right, Up, Down, each with the board it
/// produces.
pub open spec fn legal_moves(b: u64) -> Seq<(Direction, u64)> {
    (if move_board(b, Direction::Left) != b {
        seq![(Direction::Left, move_board(b, Direction::Left))]
    } else {
        Seq::<(Direction, u64)>::empty()
    }) + (if move_board(b, Direction::Right) != b {
        seq![(Direction::Right, move_board(b, Direction::Right))]
    } else {
        Seq::<(Direction, u64)>::empty()
    }) + (if move_board(b, Direction::Up) != b {
        seq![(Direction::Up, move_board(b, Direction::Up))]
    } else {
        Seq::<(Direction, u64)>::empty()
    }) + (if move_board(b, Direction::Down) != b {
        seq![(Direction::Down, move_board(b, Direction::Down))]
    } else {
        Seq::<(Direction, u64)>::empty()
    })
}

/// A dead board: no direction changes it.
pub open spec fn is_dead_board(b: u64) -> bool {
    legal_moves(b).len() == 0
}

/// The view of a move list: each entry as a direction and packed board.
pub open spec fn moves_view(v: Seq<(Direction, Board)>) -> Seq<(Direction, u64)> {
    v.map_values(|p: (Direction, Board)| (p.0, p.1.0))
}

/// A board is the assembly of its four rows.
proof fn lemma_pack_rows_id_bv(b: u64)
    by (bit_vector)
    ensures
        b == (((b & 0xFFFF) as u16) as u64) | (((((b >> 16u64) & 0xFFFF) as u16) as u64) << 16u64)
            | (((((b >> 32u64) & 0xFFFF) as u16) as u64) << 32u64)
            | (((((b >> 48u64) & 0xFFFF) as u16) as u64) << 48u64),
{
}

/// A board equals `pack_rows` of its rows.
pub proof fn lemma_pack_rows_id(b: u64)
    ensures
        pack_rows(brow16(b, 0), brow16(b, 1), brow16(b, 2), brow16(b, 3)) == b,
{
    lemma_pack_rows_id_bv(b);
    assert(brow16(b, 0) == ((b >> 0u64) & 0xFFFF) as u16);
    assert(b >> 0u64 == b) by (bit_vector);
}

/// The rows of a board are well formed.
pub proof fn lemma_board_rows_valid(b: u64)
    ensures
        forall|i: int| 0 <= i < 4 ==> valid_tiles(#[trigger] board_row(b, i)),
{
    assert forall|i: int| 0 <= i < 4 implies valid_tiles(#[trigger] board_row(b, i)) by {
        lemma_row_tiles_valid(brow16(b, i));
    }
}

/// The aggregate facts of the row slide, lifted to the right slide.
proof fn lemma_slide_right_facts(s: Seq<u16>)
    requires
        valid_tiles(s),
    ensures
        row_score(slide_right(s)) >= row_score(s),
        row_empties(slide_right(s)) >= row_empties(s),
        row_value(slide_right(s)) == row_value(s),
        slide_right(s) != s && row_empties(s) == 0 ==> row_empties(slide_right(s)) >= 1,
        valid_tiles(slide_right(s)),
{
    let rs = rev4(s);
    assert(valid_tiles(rs));
    lemma_slide_facts(rs);
    crate::row::lemma_slide_valid(rs);
    lemma_rev4_involution(s);
    if slide_right(s) != s {
        assert(slide(rs) != rs) by {
            if slide(rs) == rs {
                assert(slide_right(s) == rev4(rs));
            }
        }
    }
}

/// The horizontal move facts for one board: score never drops, empties
/// never drop, the face value is kept, and a change to a full board opens
/// a cell.
proof fn lemma_move_horizontal_facts(b: u64, right: bool)
    ensures
        board_score(if right { move_right_board(b) } else { move_left_board(b) })
            >= board_score(b),
        board_empties(if right { move_right_board(b) } else { move_left_board(b) })
            >= board_empties(b),
        board_value(if right { move_right_board(b) } else { move_left_board(b) })
            == board_value(b),
        (if right { move_right_board(b) } else { move_left_board(b) }) != b
            && board_empties(b) == 0 ==> board_empties(
            if right { move_right_board(b) } else { move_left_board(b) },
        ) >= 1,
{
    let m = if right { move_right_board(b) } else { move_left_board(b) };
    lemma_board_rows_valid(b);
    assert forall|i: int| 0 <= i < 4 implies #[trigger] board_row(m, i) == (if right {
        slide_right(board_row(b, i))
    } else {
        slide(board_row(b, i))
    }) by {
        let si = if right { slide_right(board_row(b, i)) } else { slide(board_row(b, i)) };
        if right {
            lemma_slide_right_facts(board_row(b, i));
        } else {
            lemma_slide_facts(board_row(b, i));
            crate::row::lemma_slide_valid(board_row(b, i));
        }
        lemma_pack_rows_rows(
            pack_row(if right { slide_right(board_row(b, 0)) } else { slide(board_row(b, 0)) }),
            pack_row(if right { slide_right(board_row(b, 1)) } else { slide(board_row(b, 1)) }),
            pack_row(if right { slide_right(board_row(b, 2)) } else { slide(board_row(b, 2)) }),
            pack_row(if right { slide_right(board_row(b, 3)) } else { slide(board_row(b, 3)) }),
        );
        assert(valid_tiles(si));
        lemma_pack_row_tiles(si);
        assert(brow16(m, i) == pack_row(si));
    }
    if right {
        lemma_slide_right_facts(board_row(b, 0));
        lemma_slide_right_facts(board_row(b, 1));
        lemma_slide_right_facts(board_row(b, 2));
        lemma_slide_right_facts(board_row(b, 3));
    } else {
        lemma_slide_facts(board_row(b, 0));
        lemma_slide_facts(board_row(b, 1));
        lemma_slide_facts(board_row(b, 2));
        lemma_slide_facts(board_row(b, 3));
    }
    if m != b && board_empties(b) == 0 {
        // Some row changed: were every row fixed, packing the rows again
        // would give the board back.
        assert(exists|i: int| 0 <= i < 4 && #[trigger] board_row(m, i) != board_row(b, i)) by {
            if forall|i: int| 0 <= i < 4 ==> #[trigger] board_row(m, i) == board_row(b, i) {
                lemma_pack_rows_id(b);
                lemma_board_rows_valid(m);
                lemma_board_rows_valid(b);
                assert forall|i: int| 0 <= i < 4 implies #[trigger] brow16(m, i)
                    == brow16(b, i) by {
                    crate::row::lemma_pack_row_injective(board_row(m, i), board_row(b, i));
                    assert(pack_row(row_tiles(brow16(m, i))) == pack_row(row_tiles(brow16(b, i))));
                    lemma_pack_row_id(brow16(m, i));
                    lemma_pack_row_id(brow16(b, i));
                }
                lemma_pack_rows_id(m);
                assert(m == b);
            }
        }
    }
}

/// The move facts for every direction: score never drops (the merge reward
/// is non-negative), empties never drop, the total face value is kept, and
/// a move that changes the board leaves room for the spawned tile.
pub proof fn lemma_move_board_facts(b: u64, d: Direction)
    ensures
        board_score(move_board(b, d)) >= board_score(b),
        board_empties(move_board(b, d)) >= board_empties(b),
        board_value(move_board(b, d)) == board_value(b),
        move_board(b, d) != b ==> board_empties(move_board(b, d)) >= 1,
{
    let m = move_board(b, d);
    match d {
        Direction::Left => {
            lemma_move_horizontal_facts(b, false);
        }
        Direction::Right => {
            lemma_move_horizontal_facts(b, true);
        }
        Direction::Up | Direction::Down => {
            let t = transpose_board(b);
            let right = d matches Direction::Down;
            let h = if right { move_right_board(t) } else { move_left_board(t) };
            lemma_move_horizontal_facts(t, right);
            lemma_transpose_aggregates(b);
            lemma_transpose_aggregates(h);
            if m != b {
                assert(h != t) by {
                    if h == t {
                        lemma_transpose_involution(b);
                    }
                }
            }
        }
    }
    if m != b && board_empties(b) >= 1 {
    }
}

/// The nibbles of a column pattern: tile `i` sits at bit `16 i`, all other
/// nibbles are zero, so the pattern only occupies every fourth nibble.
proof fn lemma_col_pattern_bv(a: u16, b: u16, c: u16, d: u16)
    by (bit_vector)
    requires
        a < 16,
        b < 16,
        c < 16,
        d < 16,
    ensures
        (((a as u64) | ((b as u64) << 16u64) | ((c as u64) << 32u64) | ((d as u64) << 48u64))
            & 0xFFF0_FFF0_FFF0_FFF0) == 0,
        (((a as u64) | ((b as u64) << 16u64) | ((c as u64) << 32u64) | ((d as u64) << 48u64))
            >> 0u64) & 0xF == a as u64,
        (((a as u64) | ((b as u64) << 16u64) | ((c as u64) << 32u64) | ((d as u64) << 48u64))
            >> 16u64) & 0xF == b as u64,
        (((a as u64) | ((b as u64) << 16u64) | ((c as u64) << 32u64) | ((d as u64) << 48u64))
            >> 32u64) & 0xF == c as u64,
        (((a as u64) | ((b as u64) << 16u64) | ((c as u64) << 32u64) | ((d as u64) << 48u64))
            >> 48u64) & 0xF == d as u64,
{
}

/// Interleaving four column patterns: nibble `4 y + x` of the OR comes from
/// pattern `x` at bit `16 y`.
proof fn lemma_col_assembly_bv(p0: u64, p1: u64, p2: u64, p3: u64)
    by (bit_vector)
    requires
        p0 & 0xFFF0_FFF0_FFF0_FFF0 == 0,
        p1 & 0xFFF0_FFF0_FFF0_FFF0 == 0,
        p2 & 0xFFF0_FFF0_FFF0_FFF0 == 0,
        p3 & 0xFFF0_FFF0_FFF0_FFF0 == 0,
    ensures
        ((p0 | (p1 << 4u64) | (p2 << 8u64) | (p3 << 12u64)) >> 0u64) & 0xF == (p0 >> 0u64) & 0xF,
        ((p0 | (p1 << 4u64) | (p2 << 8u64) | (p3 << 12u64)) >> 4u64) & 0xF == (p1 >> 0u64) & 0xF,
        ((p0 | (p1 << 4u64) | (p2 << 8u64) | (p3 << 12u64)) >> 8u64) & 0xF == (p2 >> 0u64) & 0xF,
        ((p0 | (p1 << 4u64) | (p2 << 8u64) | (p3 << 12u64)) >> 12u64) & 0xF == (p3 >> 0u64) & 0xF,
        ((p0 | (p1 << 4u64) | (p2 << 8u64) | (p3 << 12u64)) >> 16u64) & 0xF == (p0 >> 16u64) & 0xF,
        ((p0 | (p1 << 4u64) | (p2 << 8u64) | (p3 << 12u64)) >> 20u64) & 0xF == (p1 >> 16u64) & 0xF,
        ((p0 | (p1 << 4u64) | (p2 << 8u64) | (p3 << 12u64)) >> 24u64) & 0xF == (p2 >> 16u64) & 0xF,
        ((p0 | (p1 << 4u64) | (p2 << 8u64) | (p3 << 12u64)) >> 28u64) & 0xF == (p3 >> 16u64) & 0xF,
        ((p0 | (p1 << 4u64) | (p2 << 8u64) | (p3 << 12u64)) >> 32u64) & 0xF == (p0 >> 32u64) & 0xF,
        ((p0 | (p1 << 4u64) | (p2 << 8u64) | (p3 << 12u64)) >> 36u64) & 0xF == (p1 >> 32u64) & 0xF,
        ((p0 | (p1 << 4u64) | (p2 << 8u64) | (p3 << 12u64)) >> 40u64) & 0xF == (p2 >> 32u64) & 0xF,
        ((p0 | (p1 << 4u64) | (p2 << 8u64) | (p3 << 12u64)) >> 44u64) & 0xF == (p3 >> 32u64) & 0xF,
        ((p0 | (p1 << 4u64) | (p2 << 8u64) | (p3 << 12u64)) >> 48u64) & 0xF == (p0 >> 48u64) & 0xF,
        ((p0 | (p1 << 4u64) | (p2 << 8u64) | (p3 << 12u64)) >> 52u64) & 0xF == (p1 >> 48u64) & 0xF,
        ((p0 | (p1 << 4u64) | (p2 << 8u64) | (p3 << 12u64)) >> 56u64) & 0xF == (p2 >> 48u64) & 0xF,
        ((p0 | (p1 << 4u64) | (p2 << 8u64) | (p3 << 12u64)) >> 60u64) & 0xF == (p3 >> 48u64) & 0xF,
{
}

/// The OR of four shifted column patterns is the transpose of the board
/// whose rows are the spread tile sequences: the column-table assembly of
/// the vertical moves lands directly in board layout.
#[verifier::rlimit(80)]
proof fn lemma_vertical_assembly(s0: Seq<u16>, s1: Seq<u16>, s2: Seq<u16>, s3: Seq<u16>)
    requires
        valid_tiles(s0),
        valid_tiles(s1),
        valid_tiles(s2),
        valid_tiles(s3),
    ensures
        col_pattern(s0) | (col_pattern(s1) << 4u64) | (col_pattern(s2) << 8u64) | (col_pattern(s3)
            << 12u64) == transpose_board(
            pack_rows(pack_row(s0), pack_row(s1), pack_row(s2), pack_row(s3)),
        ),
{
    let p0 = col_pattern(s0);
    let p1 = col_pattern(s1);
    let p2 = col_pattern(s2);
    let p3 = col_pattern(s3);
    let w = p0 | (p1 << 4u64) | (p2 << 8u64) | (p3 << 12u64);
    let l = pack_rows(pack_row(s0), pack_row(s1), pack_row(s2), pack_row(s3));
    let t = transpose_board(l);
    lemma_col_pattern_bv(s0[0], s0[1], s0[2], s0[3]);
    lemma_col_pattern_bv(s1[0], s1[1], s1[2], s1[3]);
    lemma_col_pattern_bv(s2[0], s2[1], s2[2], s2[3]);
    lemma_col_pattern_bv(s3[0], s3[1], s3[2], s3[3]);
    lemma_col_assembly_bv(p0, p1, p2, p3);
    lemma_pack_rows_rows(pack_row(s0), pack_row(s1), pack_row(s2), pack_row(s3));
    lemma_pack_row_tiles(s0);
    lemma_pack_row_tiles(s1);
    lemma_pack_row_tiles(s2);
    lemma_pack_row_tiles(s3);
    lemma_transpose_nib(l);
    assert forall|k: int| 0 <= k < 16 implies bnib(w, k) == bnib(t, k) by {
        let y = k / 4;
        let x = k % 4;
        assert(k == 4 * y + x);
        assert(bnib(t, 4 * y + x) == bnib(l, 4 * x + y));
        lemma_board_row_nib(l, x, y);
        assert(board_row(l, x) == row_tiles(pack_row(if x == 0 {
            s0
        } else if x == 1 {
            s1
        } else if x == 2 {
            s2
        } else {
            s3
        })));
        assert((4 * (4 * y + x)) as u64 == (16 * y + 4 * x) as u64);
        assert((4 * (4 * x + y)) as u64 == (16 * x + 4 * y) as u64);
    }
    lemma_board_nib_ext(w, t);
}

/// The nibble structure of the column extraction bit trick.
proof fn lemma_column_at_bv(b: u64, i: u64)
    by (bit_vector)
    requires
        i < 4,
    ensures
        (((((b >> (4 * i)) >> 36u64) & 0xF000) as u16 | (((b >> (4 * i)) >> 24u64) & 0xF00) as u16
            | (((b >> (4 * i)) >> 12u64) & 0xF0) as u16 | ((b >> (4 * i)) & 0xF) as u16)
            >> 0u16) & 0xF == ((b >> (4 * i + 0)) & 0xF) as u16,
        (((((b >> (4 * i)) >> 36u64) & 0xF000) as u16 | (((b >> (4 * i)) >> 24u64) & 0xF00) as u16
            | (((b >> (4 * i)) >> 12u64) & 0xF0) as u16 | ((b >> (4 * i)) & 0xF) as u16)
            >> 4u16) & 0xF == ((b >> (4 * i + 16)) & 0xF) as u16,
        (((((b >> (4 * i)) >> 36u64) & 0xF000) as u16 | (((b >> (4 * i)) >> 24u64) & 0xF00) as u16
            | (((b >> (4 * i)) >> 12u64) & 0xF0) as u16 | ((b >> (4 * i)) & 0xF) as u16)
            >> 8u16) & 0xF == ((b >> (4 * i + 32)) & 0xF) as u16,
        (((((b >> (4 * i)) >> 36u64) & 0xF000) as u16 | (((b >> (4 * i)) >> 24u64) & 0xF00) as u16
            | (((b >> (4 * i)) >> 12u64) & 0xF0) as u16 | ((b >> (4 * i)) & 0xF) as u16)
            >> 12u16) & 0xF == ((b >> (4 * i + 48)) & 0xF) as u16,
{
}


} // verus!
