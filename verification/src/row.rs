//! A single board row: four tile exponents packed little-endian into a `u16`,
//! four bits per tile. The left-slide operation `moved` is the primitive that
//! the whole move machinery is built on.

use vstd::prelude::*;

verus! {

/// Tile exponent `i` of a packed row: bits `[4i, 4i+4)`.
pub open spec fn nib16(bits: u16, i: int) -> u16 {
    (bits >> ((4 * i) as u16)) & 0xF
}

/// The four tile exponents of a packed row, in order.
pub open spec fn row_tiles(bits: u16) -> Seq<u16> {
    Seq::new(4, |i: int| nib16(bits, i))
}

/// A well-formed tile sequence: four tiles, each an exponent below 16.
pub open spec fn valid_tiles(s: Seq<u16>) -> bool {
    s.len() == 4 && (forall|i: int| 0 <= i < 4 ==> s[i] < 16)
}

/// Packing four tile exponents back into a `u16`.
pub open spec fn pack_row(s: Seq<u16>) -> u16 {
    s[0] | (s[1] << 4u16) | (s[2] << 8u16) | (s[3] << 12u16)
}

/// Score contributed by one tile: `(e - 1) * 2^e` for exponents above 1,
/// otherwise 0 (empty cells and 2-tiles are worth nothing).
pub open spec fn tile_score(t: u16) -> int {
    if t > 1 {
        (t - 1) * (1u32 << (t as u32))
    } else {
        0
    }
}

/// Total score of a row.
pub open spec fn row_score(s: Seq<u16>) -> int {
    tile_score(s[0]) + tile_score(s[1]) + tile_score(s[2]) + tile_score(s[3])
}

/// Number of empty cells in a row.
pub open spec fn row_empties(s: Seq<u16>) -> int {
    (if s[0] == 0 { 1int } else { 0 }) + (if s[1] == 0 { 1int } else { 0 })
        + (if s[2] == 0 { 1int } else { 0 }) + (if s[3] == 0 { 1int } else { 0 })
}

/// Face value of one tile: `2^e` for a non-empty tile, 0 for an empty cell.
/// Merges preserve the total face value of a row; spawns increase it, which
/// bounds the length of a game.
pub open spec fn tile_value(t: u16) -> int {
    if t == 0 {
        0
    } else {
        (1u32 << (t as u32)) as int
    }
}

/// Total face value of a row.
pub open spec fn row_value(s: Seq<u16>) -> int {
    tile_value(s[0]) + tile_value(s[1]) + tile_value(s[2]) + tile_value(s[3])
}

/// The tiles of a row in reverse order.
pub open spec fn rev4(s: Seq<u16>) -> Seq<u16> {
    seq![s[3], s[2], s[1], s[0]]
}

/// One gravity-or-merge step at position `i` of the left-slide pass:
/// a non-empty tile falls into an empty cell on its left, or two equal
/// tiles below 15 merge into the left one.
pub open spec fn step(s: Seq<u16>, i: int) -> Seq<u16> {
    if s[i] == 0 && s[i + 1] != 0 {
        s.update(i, s[i + 1]).update(i + 1, 0u16)
    } else if s[i] != 0 && s[i] == s[i + 1] && s[i] != 15 {
        s.update(i, (s[i] + 1) as u16).update(i + 1, 0u16)
    } else {
        s
    }
}

/// One full pass of the left slide: the step applied at positions 0, 1, 2.
pub open spec fn slide_pass(s: Seq<u16>) -> Seq<u16> {
    step(step(step(s, 0), 1), 2)
}

/// Termination measure for the slide fixpoint: the sum of the positions of
/// the non-empty tiles. Every step that changes the row moves a tile left or
/// empties a cell, so the measure strictly drops.
pub open spec fn row_weight(s: Seq<u16>) -> int {
    (if s[1] != 0 { 1int } else { 0 }) + (if s[2] != 0 { 2int } else { 0 })
        + (if s[3] != 0 { 3int } else { 0 })
}

/// The left slide of a row: passes are repeated until a full pass changes
/// nothing. Tiles of exponent 15 never merge.
pub open spec fn slide(s: Seq<u16>) -> Seq<u16>
    decreases row_weight(s) via slide_decreases
{
    if s.len() != 4 || slide_pass(s) == s {
        s
    } else {
        slide(slide_pass(s))
    }
}

/// A step never raises the measure, and strictly lowers it when it changes
/// the row.
proof fn lemma_step_weight(s: Seq<u16>, i: int)
    requires
        s.len() == 4,
        0 <= i < 3,
    ensures
        row_weight(step(s, i)) <= row_weight(s),
        step(s, i) != s ==> row_weight(step(s, i)) < row_weight(s),
        (s[i] == 0 && s[i + 1] != 0) || (s[i] != 0 && s[i] == s[i + 1] && s[i] != 15)
            ==> row_weight(step(s, i)) < row_weight(s),
        step(s, i).len() == 4,
{
    let t = step(s, i);
    if s[i] == 0 && s[i + 1] != 0 {
        assert(t[i] == s[i + 1] && t[i + 1] == 0);
        assert(forall|j: int| 0 <= j < 4 && j != i && j != i + 1 ==> t[j] == s[j]);
        assert(row_weight(t) < row_weight(s));
    } else if s[i] != 0 && s[i] == s[i + 1] && s[i] != 15 {
        assert(t[i + 1] == 0);
        assert(forall|j: int| 0 <= j < 4 && j != i && j != i + 1 ==> t[j] == s[j]);
        assert(row_weight(t) < row_weight(s));
    } else {
        assert(t == s);
    }
}

#[via_fn]
proof fn slide_decreases(s: Seq<u16>) {
    if s.len() == 4 && slide_pass(s) != s {
        let s0 = step(s, 0);
        let s1 = step(s0, 1);
        lemma_step_weight(s, 0);
        lemma_step_weight(s0, 1);
        lemma_step_weight(s1, 2);
    }
}

/// A step keeps the tiles well formed: a merge only raises an exponent that
/// was below 15.
proof fn lemma_step_valid(s: Seq<u16>, i: int)
    requires
        valid_tiles(s),
        0 <= i < 3,
    ensures
        valid_tiles(step(s, i)),
{
}

/// The slide of a well-formed row is well formed, and the fixpoint is
/// reached: a pass over the result changes nothing.
pub proof fn lemma_slide_valid(s: Seq<u16>)
    requires
        valid_tiles(s),
    ensures
        valid_tiles(slide(s)),
        slide_pass(slide(s)) == slide(s),
    decreases row_weight(s)
{
    if slide_pass(s) != s {
        let s0 = step(s, 0);
        let s1 = step(s0, 1);
        lemma_step_valid(s, 0);
        lemma_step_valid(s0, 1);
        lemma_step_valid(s1, 2);
        lemma_step_weight(s, 0);
        lemma_step_weight(s0, 1);
        lemma_step_weight(s1, 2);
        lemma_slide_valid(slide_pass(s));
    }
}

/// A row packed from four small tiles unpacks to the same four tiles.
proof fn lemma_pack_unpack(a: u16, b: u16, c: u16, d: u16)
    by (bit_vector)
    requires
        a < 16,
        b < 16,
        c < 16,
        d < 16,
    ensures
        ((a | (b << 4u16) | (c << 8u16) | (d << 12u16)) >> 0u16) & 0xF == a,
        ((a | (b << 4u16) | (c << 8u16) | (d << 12u16)) >> 4u16) & 0xF == b,
        ((a | (b << 4u16) | (c << 8u16) | (d << 12u16)) >> 8u16) & 0xF == c,
        ((a | (b << 4u16) | (c << 8u16) | (d << 12u16)) >> 12u16) & 0xF == d,
{
}

/// Every nibble of a `u16` is below 16, and a `u16` is determined by its
/// four nibbles.
proof fn lemma_nibble_basics(x: u16, y: u16)
    by (bit_vector)
    ensures
        (x >> 0u16) & 0xF < 16,
        (x >> 4u16) & 0xF < 16,
        (x >> 8u16) & 0xF < 16,
        (x >> 12u16) & 0xF < 16,
        ((x >> 0u16) & 0xF == (y >> 0u16) & 0xF && (x >> 4u16) & 0xF == (y >> 4u16) & 0xF
            && (x >> 8u16) & 0xF == (y >> 8u16) & 0xF && (x >> 12u16) & 0xF == (y >> 12u16) & 0xF)
            ==> x == y,
{
}

/// The tiles of any packed row are well formed.
pub proof fn lemma_row_tiles_valid(bits: u16)
    ensures
        valid_tiles(row_tiles(bits)),
{
    lemma_nibble_basics(bits, bits);
    assert forall|i: int| 0 <= i < 4 implies row_tiles(bits)[i] < 16 by {
        assert(row_tiles(bits)[i] == nib16(bits, i));
        lemma_nibble_basics(bits, bits);
        if i == 0 {
            assert(nib16(bits, 0) == (bits >> 0u16) & 0xF);
        } else if i == 1 {
            assert(nib16(bits, 1) == (bits >> 4u16) & 0xF);
        } else if i == 2 {
            assert(nib16(bits, 2) == (bits >> 8u16) & 0xF);
        } else {
            assert(nib16(bits, 3) == (bits >> 12u16) & 0xF);
        }
    }
}

/// Packing the tiles of a row gives the row back, and unpacking a packed
/// well-formed tile sequence gives the tiles back.
pub proof fn lemma_pack_row_tiles(s: Seq<u16>)
    requires
        valid_tiles(s),
    ensures
        row_tiles(pack_row(s)) == s,
{
    lemma_pack_unpack(s[0], s[1], s[2], s[3]);
    assert(row_tiles(pack_row(s)) =~= s);
}

/// Two well-formed tile sequences with the same packing are equal.
pub proof fn lemma_pack_row_injective(s: Seq<u16>, t: Seq<u16>)
    requires
        valid_tiles(s),
        valid_tiles(t),
        pack_row(s) == pack_row(t),
    ensures
        s == t,
{
    lemma_pack_row_tiles(s);
    lemma_pack_row_tiles(t);
}

/// A single row of the board. The `u16` packs four tile exponents
/// little-endian, four bits each.
#[derive(Clone, Copy, PartialEq, Eq, Structural, Debug)]
pub struct Row(pub u16);

impl View for Row {
    type V = Seq<u16>;

    open spec fn view(&self) -> Seq<u16> {
        row_tiles(self.0)
    }
}

impl Row {
    /// Every possible row, in increasing order of packed value.
    pub fn iter_all() -> (r: Vec<Row>)
        ensures
            r@.len() == 0x10000,
            forall|i: int| 0 <= i < 0x10000 ==> (#[trigger] r@[i]).0 == i as u16,
    {
        let mut rows: Vec<Row> = Vec::new();
        let mut i: usize = 0;
        while i < 0x10000
            invariant
                i <= 0x10000,
                rows@.len() == i,
                forall|j: int| 0 <= j < i ==> (#[trigger] rows@[j]).0 == j as u16,
            decreases 0x10000 - i
        {
            rows.push(Row(i as u16));
            i = i + 1;
        }
        rows
    }

    /// Builds a row from four tile exponents, least-significant first.
    pub fn new(tiles: &[u16]) -> (r: Row)
        requires
            tiles@.len() == 4,
            forall|i: int| 0 <= i < 4 ==> tiles@[i] < 16,
        ensures
            r@ == tiles@,
    {
        let r = Row::from_tiles(tiles[0], tiles[1], tiles[2], tiles[3]);
        proof {
            assert(r@ =~= tiles@);
        }
        r
    }

    /// Builds a row from four tile exponents given separately.
    pub fn from_tiles(t0: u16, t1: u16, t2: u16, t3: u16) -> (r: Row)
        requires
            t0 < 16,
            t1 < 16,
            t2 < 16,
            t3 < 16,
        ensures
            r@ == seq![t0, t1, t2, t3],
            r.0 == pack_row(seq![t0, t1, t2, t3]),
    {
        let bits = t0 | (t1 << 4u16) | (t2 << 8u16) | (t3 << 12u16);
        proof {
            lemma_pack_row_tiles(seq![t0, t1, t2, t3]);
        }
        Row(bits)
    }

    pub fn from_u16(bits: u16) -> (r: Row)
        ensures
            r.0 == bits,
    {
        Row(bits)
    }

    pub fn as_u16(&self) -> (r: u16)
        ensures
            r == self.0,
    {
        self.0
    }

    /// The tile exponent at position `i`.
    pub fn tile_at(&self, i: usize) -> (r: u16)
        requires
            i < 4,
        ensures
            r == self@[i as int],
            r < 16,
    {
        let r = (self.0 >> ((i as u16) * 4)) & 0xF;
        proof {
            lemma_row_tiles_valid(self.0);
            assert((4 * (i as int)) as u16 == (i as u16) * 4);
        }
        r
    }

    /// The score of the row: the sum over its tiles of `(e - 1) * 2^e`,
    /// counting only exponents above 1.
    pub fn score(&self) -> (r: u32)
        ensures
            r == row_score(self@),
            r <= 4 * 458752,
    {
        let t0 = self.tile_at(0);
        let t1 = self.tile_at(1);
        let t2 = self.tile_at(2);
        let t3 = self.tile_at(3);
        proof {
            lemma_tile_score_bound(t0);
            lemma_tile_score_bound(t1);
            lemma_tile_score_bound(t2);
            lemma_tile_score_bound(t3);
        }
        let s0 = Self::tile_points(t0);
        let s1 = Self::tile_points(t1);
        let s2 = Self::tile_points(t2);
        let s3 = Self::tile_points(t3);
        s0 + s1 + s2 + s3
    }

    /// The score of a single tile exponent.
    fn tile_points(t: u16) -> (r: u32)
        requires
            t < 16,
        ensures
            r == tile_score(t),
            r <= 458752,
    {
        proof {
            lemma_tile_score_bound(t);
        }
        if t > 1 {
            (t as u32 - 1) * (1u32 << (t as u32))
        } else {
            0
        }
    }

    /// The number of empty cells in the row.
    pub fn count_empties(&self) -> (r: u64)
        ensures
            r == row_empties(self@),
    {
        let mut empties: u64 = 0;
        if self.tile_at(0) == 0 {
            empties = empties + 1;
        }
        if self.tile_at(1) == 0 {
            empties = empties + 1;
        }
        if self.tile_at(2) == 0 {
            empties = empties + 1;
        }
        if self.tile_at(3) == 0 {
            empties = empties + 1;
        }
        empties
    }

    /// The canonical left slide: non-empty tiles fall left and adjacent
    /// equal tiles below 15 merge, repeated until a full pass changes
    /// nothing.
    pub fn moved(&self) -> (r: Row)
        ensures
            r@ == slide(self@),
    {
        proof {
            lemma_row_tiles_valid(self.0);
        }
        let mut t0 = self.tile_at(0);
        let mut t1 = self.tile_at(1);
        let mut t2 = self.tile_at(2);
        let mut t3 = self.tile_at(3);
        let ghost orig = self@;
        proof {
            assert(seq![t0, t1, t2, t3] =~= orig);
        }
        let mut changed = true;
        while changed
            invariant
                t0 < 16,
                t1 < 16,
                t2 < 16,
                t3 < 16,
                valid_tiles(orig),
                slide(seq![t0, t1, t2, t3]) == slide(orig),
                !changed ==> slide_pass(seq![t0, t1, t2, t3]) == seq![t0, t1, t2, t3],
            decreases 2 * row_weight(seq![t0, t1, t2, t3]) + (if changed { 1int } else { 0int })
        {
            changed = false;
            let ghost before = seq![t0, t1, t2, t3];
            // step at position 0
            if t0 == 0 && t1 != 0 {
                t0 = t1;
                t1 = 0;
                changed = true;
            } else if t0 != 0 && t0 == t1 && t0 != 15 {
                t0 = t0 + 1;
                t1 = 0;
                changed = true;
            }
            proof {
                assert(seq![t0, t1, t2, t3] =~= step(before, 0));
                lemma_step_valid(before, 0);
                lemma_step_weight(before, 0);
            }
            let ghost after0 = seq![t0, t1, t2, t3];
            // step at position 1
            if t1 == 0 && t2 != 0 {
                t1 = t2;
                t2 = 0;
                changed = true;
            } else if t1 != 0 && t1 == t2 && t1 != 15 {
                t1 = t1 + 1;
                t2 = 0;
                changed = true;
            }
            proof {
                assert(seq![t0, t1, t2, t3] =~= step(after0, 1));
                lemma_step_valid(after0, 1);
                lemma_step_weight(after0, 1);
            }
            let ghost after1 = seq![t0, t1, t2, t3];
            // step at position 2
            if t2 == 0 && t3 != 0 {
                t2 = t3;
                t3 = 0;
                changed = true;
            } else if t2 != 0 && t2 == t3 && t2 != 15 {
                t2 = t2 + 1;
                t3 = 0;
                changed = true;
            }
            proof {
                assert(seq![t0, t1, t2, t3] =~= step(after1, 2));
                lemma_step_valid(after1, 2);
                lemma_step_weight(after1, 2);
                let after2 = seq![t0, t1, t2, t3];
                assert(after2 == slide_pass(before));
                if after2 == before {
                    assert(!changed) by {
                        if changed {
                            // Any taken branch strictly lowers the measure.
                            assert(row_weight(after2) < row_weight(before));
                        }
                    }
                } else {
                    assert(slide(before) == slide(after2));
                    assert(changed) by {
                        if !changed {
                            assert(after0 == before);
                            assert(after1 == after0);
                            assert(after2 == after1);
                        }
                    }
                }
            }
        }
        let r = Row::from_tiles(t0, t1, t2, t3);
        proof {
            let fin = seq![t0, t1, t2, t3];
            assert(slide(fin) == fin);
            assert(r@ == slide(orig));
        }
        r
    }

    /// The same tiles in reverse order.
    pub fn reversed(&self) -> (r: Row)
        ensures
            r@ == rev4(self@),
    {
        let r = Row::from_tiles(self.tile_at(3), self.tile_at(2), self.tile_at(1), self.tile_at(0));
        proof {
            assert(r@ =~= rev4(self@));
        }
        r
    }

    /// Spreads the four tiles into a column-major 64-bit pattern: tile `i`
    /// lands in the nibble at bit `16 i`, all other nibbles are zero.
    pub fn as_column(&self) -> (r: u64)
        ensures
            r == col_pattern(self@),
    {
        let tmp = self.0 as u64;
        let r = (tmp | (tmp << 12u64) | (tmp << 24u64) | (tmp << 36u64)) & 0x000F_000F_000F_000F;
        proof {
            lemma_as_column_bits(self.0);
            lemma_row_tiles_valid(self.0);
            lemma_col_pattern_parts(self@[0], self@[1], self@[2], self@[3]);
        }
        r
    }
}

/// The column-spread packing of four tiles: tile `i` at bit `16 i`.
pub open spec fn col_pattern(s: Seq<u16>) -> u64 {
    (s[0] as u64) | ((s[1] as u64) << 16u64) | ((s[2] as u64) << 32u64) | ((s[3] as u64) << 48u64)
}

/// The bit-twiddled column spread equals the nibble-by-nibble packing.
proof fn lemma_as_column_bits(x: u16)
    by (bit_vector)
    ensures
        ((x as u64) | ((x as u64) << 12u64) | ((x as u64) << 24u64) | ((x as u64) << 36u64))
            & 0x000F_000F_000F_000F
            == (((x >> 0u16) & 0xF) as u64) | ((((x >> 4u16) & 0xF) as u64) << 16u64)
                | ((((x >> 8u16) & 0xF) as u64) << 32u64) | ((((x >> 12u16) & 0xF) as u64) << 48u64),
{
}

/// Helper connecting `col_pattern` over tile values to the packed form.
proof fn lemma_col_pattern_parts(a: u16, b: u16, c: u16, d: u16)
    requires
        a < 16,
        b < 16,
        c < 16,
        d < 16,
    ensures
        col_pattern(seq![a, b, c, d]) == (a as u64) | ((b as u64) << 16u64) | ((c as u64) << 32u64)
            | ((d as u64) << 48u64),
{
}

/// An upper bound on the score of one tile: at most `14 * 2^15`.
pub proof fn lemma_tile_score_bound(t: u16)
    requires
        t < 16,
    ensures
        0 <= tile_score(t) <= 458752,
{
    assert(t < 16 ==> (1u32 << (t as u32)) <= 32768) by (bit_vector);
    if t > 1 {
        assert((t - 1) * (1u32 << (t as u32)) <= 14 * 32768) by (nonlinear_arith)
            requires t < 16, (1u32 << (t as u32)) <= 32768, (1u32 << (t as u32)) >= 0
        ;
        assert((t - 1) * (1u32 << (t as u32)) >= 0) by (nonlinear_arith)
            requires t > 1, (1u32 << (t as u32)) >= 0
        ;
    }
}

/// The slide never raises the termination measure.
proof fn lemma_slide_weight(s: Seq<u16>)
    ensures
        row_weight(slide(s)) <= row_weight(s),
    decreases row_weight(s)
{
    if s.len() == 4 && slide_pass(s) != s {
        lemma_step_weight(s, 0);
        lemma_step_weight(step(s, 0), 1);
        lemma_step_weight(step(step(s, 0), 1), 2);
        lemma_slide_weight(slide_pass(s));
    }
}

/// A row the slide leaves unchanged admits no step at all: no empty cell
/// sits left of a tile, and no adjacent equal pair below 15 remains.
pub proof fn lemma_slide_fixed_conditions(s: Seq<u16>)
    requires
        s.len() == 4,
        slide(s) == s,
    ensures
        forall|i: int|
            0 <= i < 3 ==> !(s[i] == 0 && #[trigger] s[i + 1] != 0) && !(s[i] != 0 && s[i] == s[i
                + 1] && s[i] != 15),
{
    let s0 = step(s, 0);
    let s1 = step(s0, 1);
    lemma_step_weight(s, 0);
    lemma_step_weight(s0, 1);
    lemma_step_weight(s1, 2);
    assert(slide_pass(s) == s) by {
        if slide_pass(s) != s {
            lemma_slide_weight(slide_pass(s));
        }
    }
    assert(s0 == s) by {
        if s0 != s {
            lemma_slide_weight(slide_pass(s));
        }
    }
    assert(s1 == s0);
    assert forall|i: int| 0 <= i < 3 implies !(s[i] == 0 && #[trigger] s[i + 1] != 0) && !(s[i]
        != 0 && s[i] == s[i + 1] && s[i] != 15) by {
        if i == 0 {
            lemma_step_weight(s, 0);
        } else if i == 1 {
            lemma_step_weight(s, 1);
            assert(step(s, 1) == s);
        } else {
            lemma_step_weight(s, 2);
            assert(step(s, 2) == s);
        }
    }
}

/// A row of empty cells and 2-tiles only, fixed under both slides, is
/// entirely empty: a pair of equal tiles would merge and a lone tile
/// would travel to one end past an empty cell.
pub proof fn lemma_fixed_small_row_zero(s: Seq<u16>)
    requires
        valid_tiles(s),
        forall|i: int| 0 <= i < 4 ==> s[i] <= 1,
        slide(s) == s,
        slide_right(s) == s,
    ensures
        forall|i: int| 0 <= i < 4 ==> s[i] == 0,
{
    lemma_rev4_involution(s);
    lemma_slide_valid(rev4(s));
    assert(slide(rev4(s)) == rev4(s)) by {
        assert(rev4(slide(rev4(s))) == rev4(rev4(s)));
        lemma_rev4_involution(slide(rev4(s)));
    }
    lemma_slide_fixed_conditions(s);
    lemma_slide_fixed_conditions(rev4(s));
    let r = rev4(s);
    assert(r[0] == s[3] && r[1] == s[2] && r[2] == s[1] && r[3] == s[0]);
    assert(!(s[0] == 0 && s[1] != 0) && !(s[0] != 0 && s[0] == s[1] && s[0] != 15));
    assert(!(s[1] == 0 && s[2] != 0) && !(s[1] != 0 && s[1] == s[2] && s[1] != 15));
    assert(!(s[2] == 0 && s[3] != 0) && !(s[2] != 0 && s[2] == s[3] && s[2] != 15));
    assert(!(r[0] == 0 && r[1] != 0) && !(r[1] == 0 && r[2] != 0) && !(r[2] == 0 && r[3] != 0));
}

/// The score of a merged or grown tile: any exponent of at least 2 is
/// worth at least 4 points.
pub proof fn lemma_big_tile_score(t: u16)
    requires
        2 <= t < 16,
    ensures
        tile_score(t) >= 4,
{
    assert(2 <= t < 16 ==> (1u32 << (t as u32)) >= 4) by (bit_vector);
    assert((t - 1) * (1u32 << (t as u32)) >= 4) by (nonlinear_arith)
        requires t >= 2, (1u32 << (t as u32)) >= 4
    ;
}

/// The right slide of a row, expressed through the left slide under
/// reversal.
pub open spec fn slide_right(s: Seq<u16>) -> Seq<u16> {
    rev4(slide(rev4(s)))
}

/// Reversing twice gives the row back.
pub proof fn lemma_rev4_involution(s: Seq<u16>)
    requires
        s.len() == 4,
    ensures
        rev4(rev4(s)) == s,
{
    assert(rev4(rev4(s)) =~= s);
}

/// The symmetry of the two slide directions: the reverse of a left slide is
/// the right slide of the reversed row.
pub proof fn lemma_slide_symmetry(s: Seq<u16>)
    requires
        s.len() == 4,
    ensures
        rev4(slide(s)) == slide_right(rev4(s)),
{
    lemma_rev4_involution(s);
}

/// Doubling of powers of two, used by the merge arguments below.
proof fn lemma_shift_double(e: u16)
    by (bit_vector)
    requires
        e < 15,
    ensures
        (1u32 << (((e + 1) as u16) as u32)) == 2 * (1u32 << (e as u32)),
{
}

/// A merge of two tiles of exponent `e` trades score `2 (e-1) 2^e` for
/// `e 2^(e+1)`, a gain of `2^(e+1)`; so a step never lowers the score.
proof fn lemma_step_score(s: Seq<u16>, i: int)
    requires
        valid_tiles(s),
        0 <= i < 3,
    ensures
        row_score(step(s, i)) >= row_score(s),
{
    let t = step(s, i);
    if s[i] == 0 && s[i + 1] != 0 {
        assert(row_score(t) == row_score(s));
    } else if s[i] != 0 && s[i] == s[i + 1] && s[i] != 15 {
        let e = s[i];
        let p = (1u32 << (e as u32)) as int;
        let p2 = (1u32 << (((e + 1) as u16) as u32)) as int;
        lemma_shift_double(e);
        assert(p2 == 2 * p);
        if e > 1 {
            assert(tile_score((e + 1) as u16) == e * p2) by (nonlinear_arith)
                requires tile_score((e + 1) as u16) == ((e + 1) - 1) * p2
            ;
            assert(2 * tile_score(e) == (e - 1) * p2) by (nonlinear_arith)
                requires tile_score(e) == (e - 1) * p, p2 == 2 * p
            ;
            assert(e * p2 - (e - 1) * p2 == p2) by (nonlinear_arith);
            assert(p2 > 0) by {
                assert(p > 0) by {
                    assert(e < 16 ==> 1u32 << (e as u32) >= 1) by (bit_vector);
                }
            }
            assert(tile_score((e + 1) as u16) >= 2 * tile_score(e));
        } else {
            assert(e == 1);
            assert(tile_score(e) == 0);
            assert(tile_score((e + 1) as u16) == 1 * (1u32 << 2u32));
        }
    }
}

/// A step never lowers the number of empty cells; when it changes a full
/// row, it is a merge and opens a cell.
proof fn lemma_step_empties(s: Seq<u16>, i: int)
    requires
        valid_tiles(s),
        0 <= i < 3,
    ensures
        row_empties(step(s, i)) >= row_empties(s),
        step(s, i) != s && row_empties(s) == 0 ==> row_empties(step(s, i)) >= 1,
{
}

/// A step preserves the total face value of a row: gravity moves a tile,
/// and a merge turns `2^e + 2^e` into `2^(e+1)`.
proof fn lemma_step_value(s: Seq<u16>, i: int)
    requires
        valid_tiles(s),
        0 <= i < 3,
    ensures
        row_value(step(s, i)) == row_value(s),
{
    if s[i] != 0 && s[i] == s[i + 1] && s[i] != 15 {
        lemma_shift_double(s[i]);
    }
}

/// A full pass never lowers score or empties, preserves the face value, and
/// opens a cell when it changes a full row.
proof fn lemma_pass_facts(s: Seq<u16>)
    requires
        valid_tiles(s),
    ensures
        row_score(slide_pass(s)) >= row_score(s),
        row_empties(slide_pass(s)) >= row_empties(s),
        row_value(slide_pass(s)) == row_value(s),
        valid_tiles(slide_pass(s)),
        slide_pass(s) != s && row_empties(s) == 0 ==> row_empties(slide_pass(s)) >= 1,
{
    let s0 = step(s, 0);
    let s1 = step(s0, 1);
    let s2 = step(s1, 2);
    lemma_step_valid(s, 0);
    lemma_step_valid(s0, 1);
    lemma_step_valid(s1, 2);
    lemma_step_score(s, 0);
    lemma_step_score(s0, 1);
    lemma_step_score(s1, 2);
    lemma_step_empties(s, 0);
    lemma_step_empties(s0, 1);
    lemma_step_empties(s1, 2);
    lemma_step_value(s, 0);
    lemma_step_value(s0, 1);
    lemma_step_value(s1, 2);
    if slide_pass(s) != s && row_empties(s) == 0 {
        if s0 != s {
        } else if s1 != s0 {
        } else {
            assert(s2 != s1);
        }
    }
}

/// The slide never lowers score or empties, preserves the total face value,
/// and opens a cell when it changes a full row. This is the row-level core
/// of the merge-reward and spawn-room invariants.
pub proof fn lemma_slide_facts(s: Seq<u16>)
    requires
        valid_tiles(s),
    ensures
        row_score(slide(s)) >= row_score(s),
        row_empties(slide(s)) >= row_empties(s),
        row_value(slide(s)) == row_value(s),
        slide(s) != s && row_empties(s) == 0 ==> row_empties(slide(s)) >= 1,
    decreases row_weight(s)
{
    if slide_pass(s) != s {
        lemma_pass_facts(s);
        lemma_step_weight(s, 0);
        lemma_step_weight(step(s, 0), 1);
        lemma_step_weight(step(step(s, 0), 1), 2);
        lemma_slide_facts(slide_pass(s));
    }
}

/// The face value of a row is at most `4 * 2^15`.
pub proof fn lemma_row_value_bound(s: Seq<u16>)
    requires
        valid_tiles(s),
    ensures
        0 <= row_value(s) <= 4 * 32768,
{
    assert forall|i: int| 0 <= i < 4 implies 0 <= tile_value(#[trigger] s[i]) <= 32768 by {
        let t = s[i];
        assert(t < 16 ==> (1u32 << (t as u32)) <= 32768) by (bit_vector);
    }
}

/// The displayed face value of a tile exponent: 0 when empty, else `2^e`.
pub fn repr_tile(tile: u16) -> (r: u64)
    requires
        tile <= 15,
    ensures
        r == tile_value(tile),
{
    if tile == 0 {
        0
    } else {
        proof {
            assert(tile <= 15 ==> (1u64 << (tile as u64)) == ((1u32 << (tile as u32)) as u64))
                by (bit_vector);
        }
        1u64 << (tile as u64)
    }
}

} // verus!
