//! The expectimax engine: a depth-limited search over the stochastic tile
//! spawns, backed by a transposition cache and a pluggable value function.
//! A 4-tile branch is charged almost 22 ply of depth, so it is usually cut
//! at once.

use vstd::prelude::*;
use vstd::arithmetic::div_mod::{lemma_div_is_ordered, lemma_div_multiples_vanish, lemma_div_pos_is_pos};
use crate::board::{
    board_empties, board_score, is_dead_board, legal_moves, move_board, rel_prob, spawns,
    sum_rel, Board, Direction, MoveTables, TileSpawn,
};
use crate::transposition_table::{
    bucket_of, cache_lookup, cache_set, PositionEval, TranspositionTable,
};
use crate::v_function::{tdiv, tdiv_wide, VFunction, Weights};

verus! {

/// The depth charge of a 4-tile spawn: such an event is about nine times
/// rarer than a 2-tile, so its branch is charged `ln(0.1)/ln(0.9)` ply,
/// close to 22, and is usually cut at once.
pub const DEPTH_PENALTY_4: u8 = 22;

/// A ceiling on every value the search handles; the cache and the
/// expectation step clamp to it, far above any value a real game can
/// produce.
pub const VAL_BOUND: i128 = 0x1_0000_0000_0000_0000_0000_0000;

/// The search depth left after a spawn event: a 2-tile costs one ply, a
/// 4-tile costs almost 22.
pub open spec fn next_depth(d: u8, t: TileSpawn) -> u8 {
    match t {
        TileSpawn::Two => (d - 1) as u8,
        TileSpawn::Four => if d >= DEPTH_PENALTY_4 {
            (d - DEPTH_PENALTY_4) as u8
        } else {
            0
        },
    }
}

/// The cache-free expectimax value of an afterstate: at depth zero the
/// static evaluation, otherwise the probability-weighted average of the
/// successor states' values, rounded toward zero on the shared
/// denominator `10 * empties`.
pub open spec fn pure_spawn<F: VFunction>(f: F, b: u64, d: u8) -> int
    decreases d, 0int, 3int, 0int
{
    if d == 0 {
        f.eval_spec(b)
    } else if board_empties(b) == 0 {
        0
    } else {
        tdiv(pure_spawn_sum(f, spawns(b), 0, d), 10 * board_empties(b))
    }
}

/// The weighted sum of the successor values of the spawn events from
/// index `i` on.
pub open spec fn pure_spawn_sum<F: VFunction>(f: F, lst: Seq<(TileSpawn, u64)>, i: int, d: u8) -> int
    decreases d, 0int, 2int, lst.len() - i
{
    if i < 0 || i >= lst.len() || d < 1 {
        0
    } else {
        rel_prob(lst[i].0) * pure_move(f, lst[i].1, next_depth(d, lst[i].0)) + pure_spawn_sum(
            f,
            lst,
            i + 1,
            d,
        )
    }
}

/// The cache-free expectimax value of a state between turns: zero when
/// the board is dead, otherwise the best move's reward plus the value of
/// its afterstate.
pub open spec fn pure_move<F: VFunction>(f: F, b: u64, d: u8) -> int
    decreases d, 1int, 0int, 0int
{
    let ms = legal_moves(b);
    if ms.len() == 0 {
        0
    } else {
        pure_move_max(f, ms, 0, d, board_score(b))
    }
}

/// The maximum over the moves from index `i` on of reward plus afterstate
/// value.
pub open spec fn pure_move_max<F: VFunction>(
    f: F,
    ms: Seq<(Direction, u64)>,
    i: int,
    d: u8,
    base: int,
) -> int
    decreases d, 0int, 4int, ms.len() - i
{
    if i < 0 || i >= ms.len() {
        0
    } else {
        let v = pure_spawn(f, ms[i].1, d) + board_score(ms[i].1) - base;
        if i == ms.len() - 1 {
            v
        } else {
            let rest = pure_move_max(f, ms, i + 1, d, base);
            if v >= rest {
                v
            } else {
                rest
            }
        }
    }
}

/// The move the top-level search picks among the first `i + 1` legal
/// moves: the one whose afterstate evaluates best, later moves winning
/// ties.
pub open spec fn best_move_idx<F: VFunction>(f: F, ms: Seq<(Direction, u64)>, i: int, d: u8) -> int
    decreases i
{
    if i <= 0 {
        0
    } else {
        let prev = best_move_idx(f, ms, i - 1, d);
        if pure_spawn(f, ms[i].1, d) >= pure_spawn(f, ms[prev].1, d) {
            i
        } else {
            prev
        }
    }
}

/// The picked index is a valid index.
pub proof fn lemma_best_move_idx_in_range<F: VFunction>(f: F, ms: Seq<(Direction, u64)>, i: int, d: u8)
    requires
        0 <= i < ms.len(),
    ensures
        0 <= best_move_idx(f, ms, i, d) <= i,
    decreases i
{
    if i > 0 {
        lemma_best_move_idx_in_range(f, ms, i - 1, d);
    }
}

/// Splitting a spawn list splits its total weight.
proof fn lemma_sum_rel_split(l: Seq<(TileSpawn, u64)>, k: int)
    requires
        0 <= k <= l.len(),
    ensures
        sum_rel(l) == sum_rel(l.take(k)) + sum_rel(l.skip(k)),
    decreases k
{
    if k == 0 {
        assert(l.take(0) =~= Seq::<(TileSpawn, u64)>::empty());
        assert(l.skip(0) =~= l);
    } else {
        lemma_sum_rel_split(l, k - 1);
        let a = l.skip(k - 1);
        assert(a[0] == l[k - 1]);
        assert(a.drop_first() =~= l.skip(k));
        assert(sum_rel(a) == rel_prob(l[k - 1].0) + sum_rel(l.skip(k)));
        lemma_sum_rel_push_take(l, k - 1);
    }
}

/// Extending a prefix by one event adds that event's weight.
proof fn lemma_sum_rel_push_take(l: Seq<(TileSpawn, u64)>, k: int)
    requires
        0 <= k < l.len(),
    ensures
        sum_rel(l.take(k + 1)) == sum_rel(l.take(k)) + rel_prob(l[k].0),
{
    lemma_sum_rel_push(l.take(k), l[k]);
    assert(l.take(k).push(l[k]) =~= l.take(k + 1));
}

/// Appending an event adds its weight to the total.
proof fn lemma_sum_rel_push(l: Seq<(TileSpawn, u64)>, x: (TileSpawn, u64))
    ensures
        sum_rel(l.push(x)) == sum_rel(l) + rel_prob(x.0),
    decreases l.len()
{
    if l.len() == 0 {
        assert(l.push(x).drop_first() =~= l);
    } else {
        assert(l.push(x).drop_first() =~= l.drop_first().push(x));
        lemma_sum_rel_push(l.drop_first(), x);
    }
}

/// Every event weight is positive, so weight totals grow with the list.
proof fn lemma_sum_rel_nonneg(l: Seq<(TileSpawn, u64)>)
    ensures
        0 <= sum_rel(l),
    decreases l.len()
{
    if l.len() > 0 {
        lemma_sum_rel_nonneg(l.drop_first());
    }
}

/// An average of values within a cap stays within the cap: the weighted
/// sum is at most the total weight times the cap, and the truncated
/// division brings it back below the cap.
proof fn lemma_tdiv_avg(a: int, m: int, cap: int)
    requires
        m >= 1,
        cap >= 0,
        -(m * cap) <= a <= m * cap,
    ensures
        -cap <= tdiv(a, m) <= cap,
{
    if a >= 0 {
        lemma_div_is_ordered(a, m * cap, m);
        lemma_div_multiples_vanish(cap, m);
        lemma_div_pos_is_pos(a, m);
    } else {
        lemma_div_is_ordered(-a, m * cap, m);
        lemma_div_multiples_vanish(cap, m);
        lemma_div_pos_is_pos(-a, m);
    }
}

/// One cache state of the engine: the slot sequence the spec recursion
/// threads through the search.
pub type CacheState = Seq<Option<(Board, PositionEval)>>;

/// The expectimax value of an afterstate together with the cache it
/// leaves behind: a sufficiently deep cached evaluation short-circuits,
/// depth zero evaluates statically, and otherwise the clamped weighted
/// average over the spawn events is computed and installed.
#[verifier::opaque]
pub open spec fn cex_spawn<F: VFunction>(f: F, c: CacheState, b: u64, d: u8) -> (int, CacheState)
    decreases d, 0int, 3int, 0int
{
    if d >= 2 && (match cache_lookup(c, b) {
        Some(e) => e.depth >= d,
        None => false,
    }) {
        (cache_lookup(c, b)->Some_0.score as int, c)
    } else if d == 0 {
        (f.eval_spec(b), c)
    } else if board_empties(b) == 0 {
        (0, cache_set(c, b, PositionEval { depth: d, score: 0 }))
    } else {
        let sc = cex_spawn_sum(f, c, spawns(b), spawns(b).len() as int, d);
        let q = tdiv(sc.0, 10 * board_empties(b));
        let v = if q > VAL_BOUND {
            VAL_BOUND as int
        } else if q < -(VAL_BOUND as int) {
            -(VAL_BOUND as int)
        } else {
            q
        };
        (v, cache_set(sc.1, b, PositionEval { depth: d, score: v as i128 }))
    }
}

/// The weighted sum over the first `k` spawn events, threading the cache
/// left to right as the search visits them.
#[verifier::opaque]
pub open spec fn cex_spawn_sum<F: VFunction>(
    f: F,
    c: CacheState,
    lst: Seq<(TileSpawn, u64)>,
    k: int,
    d: u8,
) -> (int, CacheState)
    decreases d, 0int, 2int, k
{
    if k <= 0 || k > lst.len() || d < 1 {
        (0, c)
    } else {
        let prev = cex_spawn_sum(f, c, lst, k - 1, d);
        let ev = lst[k - 1];
        let mv = cex_move(f, prev.1, ev.1, next_depth(d, ev.0));
        (prev.0 + rel_prob(ev.0) * mv.0, mv.1)
    }
}

/// The expectimax value of a state between turns together with the cache
/// it leaves behind: zero for a dead board, otherwise the maximum of
/// reward plus afterstate value, the moves visited from the last
/// direction backwards.
#[verifier::opaque]
pub open spec fn cex_move<F: VFunction>(f: F, c: CacheState, b: u64, d: u8) -> (int, CacheState)
    decreases d, 1int, 0int, 0int
{
    let ms = legal_moves(b);
    if ms.len() == 0 {
        (0, c)
    } else {
        cex_move_fold(f, c, ms, ms.len() as int, d, board_score(b))
    }
}

/// The running maximum after the last `j` moves of the list have been
/// visited, from the last direction backwards, threading the cache.
#[verifier::opaque]
pub open spec fn cex_move_fold<F: VFunction>(
    f: F,
    c: CacheState,
    ms: Seq<(Direction, u64)>,
    j: int,
    d: u8,
    base: int,
) -> (int, CacheState)
    decreases d, 0int, 4int, j
{
    if j <= 0 || j > ms.len() {
        (0, c)
    } else {
        let idx = ms.len() - j;
        let prev = cex_move_fold(f, c, ms, j - 1, d, base);
        let sv = cex_spawn(f, prev.1, ms[idx].1, d);
        let v = sv.0 + board_score(ms[idx].1) - base;
        if j == 1 {
            (v, sv.1)
        } else {
            ((if v >= prev.0 {
                v
            } else {
                prev.0
            }), sv.1)
        }
    }
}

/// The index, value and cache after the top-level search has evaluated
/// the first `k + 1` legal moves: the best value wins and later
/// directions win ties.
#[verifier::opaque]
pub open spec fn cex_best<F: VFunction>(
    f: F,
    c: CacheState,
    ms: Seq<(Direction, u64)>,
    k: int,
    d: u8,
) -> (int, int, CacheState)
    decreases d, 1int, 1int, k
{
    if k <= 0 || ms.len() == 0 {
        let sv = cex_spawn(f, c, ms[0].1, d);
        (0, sv.0, sv.1)
    } else {
        let prev = cex_best(f, c, ms, k - 1, d);
        let sv = cex_spawn(f, prev.2, ms[k].1, d);
        if sv.0 >= prev.1 {
            (k, sv.0, sv.1)
        } else {
            (prev.0, prev.1, sv.1)
        }
    }
}

/// The definition of the threaded move value, for use at call sites.
#[verifier::rlimit(100)]
#[verifier::spinoff_prover]
proof fn lemma_cex_move_def<F: VFunction>(f: F, c: CacheState, b: u64, d: u8)
    ensures
        cex_move(f, c, b, d) == (if legal_moves(b).len() == 0 {
            (0int, c)
        } else {
            cex_move_fold(f, c, legal_moves(b), legal_moves(b).len() as int, d, board_score(b))
        }),
{
    reveal_with_fuel(cex_move, 2);
}

/// The definition of the threaded afterstate value, for use at call
/// sites.
#[verifier::rlimit(100)]
#[verifier::spinoff_prover]
proof fn lemma_cex_spawn_def<F: VFunction>(f: F, c: CacheState, b: u64, d: u8)
    ensures
        cex_spawn(f, c, b, d) == (if d >= 2 && (match cache_lookup(c, b) {
            Some(e) => e.depth >= d,
            None => false,
        }) {
            (cache_lookup(c, b)->Some_0.score as int, c)
        } else if d == 0 {
            (f.eval_spec(b), c)
        } else if board_empties(b) == 0 {
            (0int, cache_set(c, b, PositionEval { depth: d, score: 0 }))
        } else {
            let sc = cex_spawn_sum(f, c, spawns(b), spawns(b).len() as int, d);
            let q = tdiv(sc.0, 10 * board_empties(b));
            let v = if q > VAL_BOUND {
                VAL_BOUND as int
            } else if q < -(VAL_BOUND as int) {
                -(VAL_BOUND as int)
            } else {
                q
            };
            (v, cache_set(sc.1, b, PositionEval { depth: d, score: v as i128 }))
        }),
{
    reveal_with_fuel(cex_spawn, 2);
}

/// An empty prefix of the spawn fold leaves the cache alone.
proof fn lemma_spawn_sum_zero<F: VFunction>(f: F, c: CacheState, lst: Seq<(TileSpawn, u64)>, d: u8)
    ensures
        cex_spawn_sum(f, c, lst, 0, d) == (0int, c),
{
    reveal_with_fuel(cex_spawn_sum, 2);
}

/// One unfolding of the move fold: the step at `j` visits move
/// `ms.len() - j` with the cache the previous steps left behind.
proof fn lemma_move_fold_unfold<F: VFunction>(
    f: F,
    c: CacheState,
    ms: Seq<(Direction, u64)>,
    j: int,
    d: u8,
    base: int,
)
    requires
        1 <= j <= ms.len(),
    ensures
        ({
            let idx = ms.len() - j;
            let prev = cex_move_fold(f, c, ms, j - 1, d, base);
            let sv = cex_spawn(f, prev.1, ms[idx].1, d);
            let v = sv.0 + board_score(ms[idx].1) - base;
            cex_move_fold(f, c, ms, j, d, base) == (if j == 1 {
                (v, sv.1)
            } else {
                ((if v >= prev.0 {
                    v
                } else {
                    prev.0
                }), sv.1)
            })
        }),
        cex_move_fold(f, c, ms, 0, d, base) == (0int, c),
{
    reveal_with_fuel(cex_move_fold, 2);
    reveal_with_fuel(cex_spawn, 1);
}

/// One unfolding of the spawn-event fold: the step at `k` weighs the
/// `k`-th event's move value with the cache the previous steps left.
proof fn lemma_spawn_sum_unfold<F: VFunction>(
    f: F,
    c: CacheState,
    lst: Seq<(TileSpawn, u64)>,
    k: int,
    d: u8,
)
    requires
        1 <= k <= lst.len(),
        d >= 1,
    ensures
        ({
            let prev = cex_spawn_sum(f, c, lst, k - 1, d);
            let mv = cex_move(f, prev.1, lst[k - 1].1, next_depth(d, lst[k - 1].0));
            cex_spawn_sum(f, c, lst, k, d) == (prev.0 + rel_prob(lst[k - 1].0) * mv.0, mv.1)
        }),
        cex_spawn_sum(f, c, lst, 0, d) == (0int, c),
{
    reveal_with_fuel(cex_spawn_sum, 2);
    reveal_with_fuel(cex_move, 1);
}

/// One unfolding of the search fold: the step at `k` compares move `k`'s
/// value with the best so far, later moves winning ties.
proof fn lemma_best_unfold<F: VFunction>(
    f: F,
    c: CacheState,
    ms: Seq<(Direction, u64)>,
    k: int,
    d: u8,
)
    requires
        1 <= k < ms.len(),
    ensures
        ({
            let prev = cex_best(f, c, ms, k - 1, d);
            let sv = cex_spawn(f, prev.2, ms[k].1, d);
            cex_best(f, c, ms, k, d) == (if sv.0 >= prev.1 {
                (k, sv.0, sv.1)
            } else {
                (prev.0, prev.1, sv.1)
            })
        }),
        ({
            let sv0 = cex_spawn(f, c, ms[0].1, d);
            cex_best(f, c, ms, 0, d) == (0int, sv0.0, sv0.1)
        }),
{
    reveal_with_fuel(cex_best, 1);
}

/// The index the search settles on is an index of the move list.
pub proof fn lemma_cex_best_in_range<F: VFunction>(
    f: F,
    c: CacheState,
    ms: Seq<(Direction, u64)>,
    k: int,
    d: u8,
)
    requires
        0 <= k < ms.len(),
    ensures
        0 <= cex_best(f, c, ms, k, d).0 <= k,
    decreases k
{
    reveal_with_fuel(cex_best, 1);
    if k > 0 {
        lemma_cex_best_in_range(f, c, ms, k - 1, d);
    }
}

/// The expectimax engine: a value function, the precomputed move tables,
/// and a transposition cache of 4 096 slots that is cleared between
/// games.
pub struct Engine<F: VFunction> {
    pub v_function: F,
    pub transposition_table: TranspositionTable,
    pub tables: MoveTables,
}

impl<F: VFunction> Engine<F> {
    /// A usable engine: tables filled, cache allocated, every cached
    /// score within the value ceiling.
    pub open spec fn wf(&self) -> bool {
        &&& self.v_function.wf()
        &&& self.tables.wf()
        &&& self.transposition_table.wf()
        &&& forall|i: int|
            0 <= i < self.transposition_table@.len() ==> match #[trigger] self.transposition_table@[i] {
                Some(e) => -VAL_BOUND <= e.1.score <= VAL_BOUND,
                None => true,
            }
    }

    /// Builds the engine: fills the row-move tables and allocates the
    /// cache.
    pub fn new(weights: F::Weights) -> (r: Self)
        requires
            weights.wf(),
        ensures
            r.wf(),
            r.v_function.weights_view() == weights,
            weights.is_zero() ==> r.v_function.is_zero(),
    {
        let transposition_table = TranspositionTable::new(0x1000);
        let tables = MoveTables::new();
        Engine { v_function: F::new(weights), transposition_table, tables }
    }

    /// The precomputed move tables, for driving the board primitives.
    pub fn tables(&self) -> (t: &MoveTables)
        ensures
            t == &self.tables,
    {
        &self.tables
    }

    /// Picks the legal move whose afterstate evaluates best under
    /// expectimax at the given depth; later directions win ties. At
    /// depths one and two the cache cannot influence the values, and the
    /// chosen move is exactly the best under the cache-free model.
    #[verifier::rlimit(100)]
    pub fn search(&mut self, board: Board, depth: u8) -> (r: Direction)
        requires
            old(self).wf(),
            depth >= 1,
            !is_dead_board(board.0),
        ensures
            final(self).wf(),
            final(self).v_function == old(self).v_function,
            final(self).tables == old(self).tables,
            exists|k: int|
                0 <= k < legal_moves(board.0).len() && r == (#[trigger] legal_moves(board.0)[k]).0,
            depth <= 2 ==> r == legal_moves(board.0)[best_move_idx(
                old(self).v_function,
                legal_moves(board.0),
                legal_moves(board.0).len() - 1,
                (depth - 1) as u8,
            )].0,
    {
        let ghost f = self.v_function;
        let moves = self.gen_moves_here(board);
        let ghost lst = legal_moves(board.0);
        let mut best_i: usize = 0;
        let mut best_v: i128 = self.expectimax_spawn_tile(moves[0].1, depth - 1);
        let mut k: usize = 1;
        while k < moves.len()
            invariant
                self.wf(),
                self.v_function == f,
                self.tables == old(self).tables,
                depth >= 1,
                moves@.len() == lst.len(),
                1 <= moves@.len(),
                forall|m: int|
                    0 <= m < moves@.len() ==> (#[trigger] moves@[m]).0 == lst[m].0 && moves@[m].1.0
                        == lst[m].1,
                1 <= k <= moves@.len(),
                best_i < k,
                depth <= 2 ==> best_i == best_move_idx(f, lst, k - 1, (depth - 1) as u8),
                depth <= 2 ==> best_v == pure_spawn(f, lst[best_i as int].1, (depth - 1) as u8),
            decreases moves@.len() - k
        {
            let v = self.expectimax_spawn_tile(moves[k].1, depth - 1);
            if v >= best_v {
                best_i = k;
                best_v = v;
            }
            k = k + 1;
        }
        moves[best_i].0
    }

    /// The legal moves of a board under this engine's tables.
    fn gen_moves_here(&self, board: Board) -> (r: Vec<(Direction, Board)>)
        requires
            self.wf(),
        ensures
            r@.len() == legal_moves(board.0).len(),
            forall|m: int|
                0 <= m < r@.len() ==> (#[trigger] r@[m]).0 == legal_moves(board.0)[m].0
                    && r@[m].1.0 == legal_moves(board.0)[m].1,
    {
        let r = board.gen_moves(&self.tables);
        proof {
            let mv = crate::board::moves_view(r@);
            assert forall|m: int| 0 <= m < r@.len() implies (#[trigger] r@[m]).0 == legal_moves(
                board.0,
            )[m].0 && r@[m].1.0 == legal_moves(board.0)[m].1 by {
                assert(mv[m] == (r@[m].0, r@[m].1.0));
            }
        }
        r
    }

    /// The expected score of a state between turns: the best move's
    /// reward plus its afterstate's expected score, zero for a dead
    /// board. Exact against the cache-free model at depths the cache
    /// cannot reach.
    #[verifier::rlimit(100)]
    fn expectimax_move(&mut self, board: Board, depth: u8) -> (r: i128)
        requires
            old(self).wf(),
        ensures
            final(self).wf(),
            final(self).v_function == old(self).v_function,
            final(self).tables == old(self).tables,
            -VAL_BOUND - 0x1_0000_0000 <= r <= VAL_BOUND + 0x1_0000_0000,
            depth <= 1 ==> r == pure_move(old(self).v_function, board.0, depth),
            r == cex_move(
                old(self).v_function,
                old(self).transposition_table@,
                board.0,
                depth,
            ).0,
            final(self).transposition_table@ == cex_move(
                old(self).v_function,
                old(self).transposition_table@,
                board.0,
                depth,
            ).1,
        decreases depth, 1int
    {
        let ghost f = self.v_function;
        let ghost c0 = self.transposition_table@;
        let moves = self.gen_moves_here(board);
        let ghost lst = legal_moves(board.0);
        if moves.len() == 0 {
            proof {
                lemma_cex_move_def(f, c0, board.0, depth);
            }
            return 0;
        }
        let my_score = board.score();
        proof {
            crate::board::lemma_board_empties_bound(board.0);
        }
        let mut best: i128 = 0;
        let mut first = true;
        let mut kk: usize = moves.len();
        while kk > 0
            invariant
                self.wf(),
                self.v_function == f,
                self.tables == old(self).tables,
                moves@.len() == lst.len(),
                1 <= moves@.len(),
                forall|m: int|
                    0 <= m < moves@.len() ==> (#[trigger] moves@[m]).0 == lst[m].0 && moves@[m].1.0
                        == lst[m].1,
                kk <= moves@.len(),
                my_score == board_score(board.0),
                0 <= my_score <= 16 * 458752,
                !first ==> kk < moves@.len(),
                !first ==> -VAL_BOUND - 0x1_0000_0000 <= best <= VAL_BOUND + 0x1_0000_0000,
                first ==> kk == moves@.len(),
                first ==> self.transposition_table@ == c0,
                !first ==> best == cex_move_fold(
                    f,
                    c0,
                    lst,
                    lst.len() - kk,
                    depth,
                    board_score(board.0),
                ).0,
                !first ==> self.transposition_table@ == cex_move_fold(
                    f,
                    c0,
                    lst,
                    lst.len() - kk,
                    depth,
                    board_score(board.0),
                ).1,
                !first && depth <= 1 ==> best == pure_move_max(
                    f,
                    lst,
                    kk as int,
                    depth,
                    board_score(board.0),
                ),
            decreases kk
        {
            let k = kk - 1;
            let after = moves[k].1;
            let ghost c_pre = self.transposition_table@;
            let ghost best_pre = best;
            let ghost first_pre = first;
            let ghost j_new = lst.len() - k;
            let sv = self.expectimax_spawn_tile(after, depth);
            let after_score = after.score();
            proof {
                crate::board::lemma_board_empties_bound(after.0);
            }
            let v = sv + (after_score as i128) - (my_score as i128);
            if first {
                best = v;
                first = false;
            } else {
                if v >= best {
                    best = v;
                }
            }
            kk = k;
            proof {
                lemma_move_fold_unfold(f, c0, lst, j_new, depth, board_score(board.0));
                let base = board_score(board.0);
                assert(lst[k as int].1 == after.0);
                assert(lst.len() - j_new == k);
                if first_pre {
                    assert(j_new == 1);
                    assert(cex_move_fold(f, c0, lst, 0, depth, base) == (0int, c0));
                    assert(c_pre == c0);
                } else {
                    assert(best_pre == cex_move_fold(f, c0, lst, j_new - 1, depth, base).0);
                    assert(c_pre == cex_move_fold(f, c0, lst, j_new - 1, depth, base).1);
                }
                assert(sv == cex_spawn(f, c_pre, after.0, depth).0);
                assert(best == cex_move_fold(f, c0, lst, j_new, depth, base).0);
                assert(self.transposition_table@ == cex_move_fold(f, c0, lst, j_new, depth, base).1);
                if depth <= 1 {
                    assert(lst[kk as int].1 == after.0);
                }
            }
        }
        proof {
            lemma_cex_move_def(f, c0, board.0, depth);
            assert(lst.len() - 0 == lst.len());
            assert(best == cex_move_fold(f, c0, lst, lst.len() as int, depth, board_score(board.0)).0);
        }
        best
    }

    /// The expected score of an afterstate: a cache hit at sufficient
    /// depth, the static evaluation at depth zero, or the exact
    /// probability-weighted average over the spawn events, clamped to the
    /// value ceiling and installed in the cache. Exact against the
    /// cache-free model at depths the cache cannot reach.
    #[verifier::rlimit(100)]
    fn expectimax_spawn_tile(&mut self, board: Board, depth: u8) -> (r: i128)
        requires
            old(self).wf(),
        ensures
            final(self).wf(),
            final(self).v_function == old(self).v_function,
            final(self).tables == old(self).tables,
            -VAL_BOUND <= r <= VAL_BOUND,
            depth <= 1 ==> r == pure_spawn(old(self).v_function, board.0, depth),
            r == cex_spawn(
                old(self).v_function,
                old(self).transposition_table@,
                board.0,
                depth,
            ).0,
            final(self).transposition_table@ == cex_spawn(
                old(self).v_function,
                old(self).transposition_table@,
                board.0,
                depth,
            ).1,
        decreases depth, 0int
    {
        let ghost f = self.v_function;
        let ghost c0 = self.transposition_table@;
        if depth >= 2 {
            let hit = self.transposition_table.get(board);
            match hit {
                Some(e) => {
                    if e.depth >= depth {
                        proof {
                            let i = bucket_of(board.0, self.transposition_table@.len() as int);
                            assert(0 <= i < self.transposition_table@.len()) by {
                                vstd::arithmetic::div_mod::lemma_mod_bound(
                                    crate::transposition_table::fnv_hash(board.0) as int,
                                    self.transposition_table@.len() as int,
                                );
                            }
                            lemma_cex_spawn_def(f, c0, board.0, depth);
                            assert(e.score == cex_spawn(f, c0, board.0, depth).0);
                            assert(c0 == cex_spawn(f, c0, board.0, depth).1);
                        }
                        return e.score;
                    }
                }
                None => {}
            }
        }
        if depth == 0 {
            let leaf = self.v_function.eval(&board);
            proof {
                lemma_cex_spawn_def(f, c0, board.0, depth);
            }
            return leaf;
        }
        let spawn_events = board.gen_tile_spawns();
        let n = board.count_empties();
        proof {
            crate::board::lemma_board_empties_bound(board.0);
            crate::board::lemma_spawn_prob_total(board.0);
            lemma_sum_rel_nonneg(spawns(board.0));
        }
        let score: i128;
        if n == 0 {
            score = 0;
            proof {
                lemma_cex_spawn_def(f, c0, board.0, depth);
                assert(score == cex_spawn(f, c0, board.0, depth).0);
                assert(cex_spawn(f, c0, board.0, depth).1 == cache_set(
                    self.transposition_table@,
                    board.0,
                    (PositionEval { depth: depth, score: score }),
                ));
            }
        } else {
            let ghost sp = spawns(board.0);
            let mut acc: i128 = 0;
            let mut k: usize = 0;
            proof {
                lemma_spawn_sum_zero(f, c0, sp, depth);
            }
            while k < spawn_events.len()
                invariant
                    self.wf(),
                    self.v_function == f,
                    self.tables == old(self).tables,
                    depth >= 1,
                    spawn_events@.len() == sp.len(),
                    forall|m: int|
                        0 <= m < spawn_events@.len() ==> {
                            let ev = #[trigger] spawn_events@[m];
                            &&& ev.1 == sp[m].0
                            &&& ev.2.0 == sp[m].1
                            &&& ev.0.num == rel_prob(ev.1)
                        },
                    k <= spawn_events@.len(),
                    sum_rel(sp) == 10 * board_empties(board.0),
                    1 <= board_empties(board.0) <= 16,
                    acc == cex_spawn_sum(f, c0, sp, k as int, depth).0,
                    self.transposition_table@ == cex_spawn_sum(f, c0, sp, k as int, depth).1,
                    -(sum_rel(sp.take(k as int)) * (VAL_BOUND + 0x1_0000_0000)) <= acc <= sum_rel(
                        sp.take(k as int),
                    ) * (VAL_BOUND + 0x1_0000_0000),
                    0 <= sum_rel(sp.take(k as int)) <= sum_rel(sp),
                    depth <= 1 ==> acc + pure_spawn_sum(f, sp, k as int, depth) == pure_spawn_sum(
                        f,
                        sp,
                        0,
                        depth,
                    ),
                decreases spawn_events@.len() - k
            {
                let ev = spawn_events[k];
                let nd = match ev.1 {
                    TileSpawn::Two => depth - 1,
                    TileSpawn::Four => depth.saturating_sub(DEPTH_PENALTY_4),
                };
                proof {
                    assert(nd == next_depth(depth, ev.1));
                }
                let ghost c_pre = self.transposition_table@;
                let mv = self.expectimax_move(ev.2, nd);
                let rel = ev.0.num;
                proof {
                    lemma_spawn_sum_unfold(f, c0, sp, k as int + 1, depth);
                    assert(cex_spawn_sum(f, c0, sp, k as int + 1, depth).0 == acc + rel_prob(
                        sp[k as int].0,
                    ) * cex_move(f, c_pre, sp[k as int].1, next_depth(depth, sp[k as int].0)).0);
                    assert(cex_spawn_sum(f, c0, sp, k as int + 1, depth).1 == cex_move(
                        f,
                        c_pre,
                        sp[k as int].1,
                        next_depth(depth, sp[k as int].0),
                    ).1);
                    assert(1 <= rel <= 9);
                    assert((rel as i128) * mv <= 9 * (VAL_BOUND + 0x1_0000_0000)
                        && (rel as i128) * mv >= -(9 * (VAL_BOUND + 0x1_0000_0000)))
                        by (nonlinear_arith)
                        requires 1 <= rel <= 9, -VAL_BOUND - 0x1_0000_0000 <= mv <= VAL_BOUND
                            + 0x1_0000_0000
                    ;
                    lemma_sum_rel_push_take(sp, k as int);
                    lemma_sum_rel_split(sp, k as int + 1);
                    lemma_sum_rel_nonneg(sp.skip(k as int + 1));
                    assert((sum_rel(sp.take(k as int)) + rel) * (VAL_BOUND + 0x1_0000_0000)
                        == sum_rel(sp.take(k as int)) * (VAL_BOUND + 0x1_0000_0000) + rel * (
                    VAL_BOUND + 0x1_0000_0000)) by (nonlinear_arith);
                    assert(rel * (VAL_BOUND + 0x1_0000_0000) >= (rel as i128) * mv
                        && -(rel * (VAL_BOUND + 0x1_0000_0000)) <= (rel as i128) * mv)
                        by (nonlinear_arith)
                        requires 1 <= rel <= 9, -VAL_BOUND - 0x1_0000_0000 <= mv <= VAL_BOUND
                            + 0x1_0000_0000
                    ;
                }
                proof {
                    let cb: int = VAL_BOUND + 0x1_0000_0000;
                    assert(sum_rel(sp.take(k as int)) * cb <= 160 * cb
                        && -(160 * cb) <= -(sum_rel(sp.take(k as int)) * cb)) by (nonlinear_arith)
                        requires 0 <= sum_rel(sp.take(k as int)) <= 160, cb > 0
                    ;
                    assert(sum_rel(sp.take(k as int + 1)) * cb == sum_rel(sp.take(k as int)) * cb
                        + rel * cb) by (nonlinear_arith)
                        requires sum_rel(sp.take(k as int + 1)) == sum_rel(sp.take(k as int))
                            + rel
                    ;
                }
                acc = acc + (rel as i128) * mv;
                k = k + 1;
            }
            proof {
                assert(sp.take(sp.len() as int) =~= sp);
                assert(pure_spawn_sum(f, sp, sp.len() as int, depth) == 0);
            }
            let den: i128 = 10 * (n as i128);
            proof {
                assert(sp.take(sp.len() as int) =~= sp);
                assert(den as int == sum_rel(sp));
                assert(acc > -0x4000_0000_0000_0000_0000_0000_0000_0000) by (nonlinear_arith)
                    requires -(sum_rel(sp) * (VAL_BOUND + 0x1_0000_0000)) <= acc,
                        0 <= sum_rel(sp) <= 160
                ;
            }
            let q = tdiv_wide(acc, den);
            proof {
                lemma_tdiv_avg(acc as int, den as int, VAL_BOUND + 0x1_0000_0000);
            }
            score = if q > VAL_BOUND {
                VAL_BOUND
            } else if q < -VAL_BOUND {
                -VAL_BOUND
            } else {
                q
            };
            proof {
                lemma_cex_spawn_def(f, c0, board.0, depth);
                assert(acc == cex_spawn_sum(f, c0, sp, sp.len() as int, depth).0);
                assert(score == cex_spawn(f, c0, board.0, depth).0);
                assert(cex_spawn(f, c0, board.0, depth).1 == cache_set(
                    self.transposition_table@,
                    board.0,
                    (PositionEval { depth: depth, score: score }),
                ));
                if depth <= 1 {
                    assert(depth == 1);
                    assert(pure_spawn(f, board.0, depth) == tdiv(
                        pure_spawn_sum(f, sp, 0, depth),
                        10 * board_empties(board.0),
                    ));
                    assert(-VAL_BOUND <= q <= VAL_BOUND) by {
                        lemma_spawn_level_one_bound(f, sp, 0, depth);
                        assert(sp.skip(0) =~= sp);
                        lemma_tdiv_avg(acc as int, den as int, VAL_BOUND as int);
                    }
                }
            }
        }
        let ghost c_end = self.transposition_table@;
        let stored = PositionEval::new(depth, score);
        proof {
            assert(stored == (PositionEval { depth: depth, score: score }));
        }
        self.transposition_table.set(board, stored);
        proof {
            assert(self.transposition_table@ == cache_set(c_end, board.0, stored));
            assert(self.transposition_table@ == cex_spawn(f, c0, board.0, depth).1);
        }
        score
    }

    /// The static evaluation of a position by the value function.
    pub fn static_eval(&self, position: Board) -> (r: i128)
        requires
            self.wf(),
        ensures
            r == self.v_function.eval_spec(position.0),
            -0x20_0000_0000_0000_0000 < r < 0x20_0000_0000_0000_0000,
    {
        self.v_function.eval(&position)
    }

    /// One learning step of the value function.
    pub fn learn(&mut self, position: &Board, delta: i64)
        requires
            old(self).wf(),
        ensures
            final(self).wf(),
            final(self).tables == old(self).tables,
            F::learn_rel(old(self).v_function, position.0, delta, final(self).v_function),
    {
        self.v_function.learn(position, delta)
    }

    /// Destroys the engine and hands the weights back.
    pub fn into_weights(self) -> (w: F::Weights)
        requires
            self.wf(),
        ensures
            w.wf(),
            w == self.v_function.weights_view(),
    {
        self.v_function.into_weights()
    }

    /// Resets the engine between games: the cache forgets everything.
    pub fn reset(&mut self)
        requires
            old(self).wf(),
        ensures
            final(self).wf(),
            final(self).v_function == old(self).v_function,
            final(self).tables == old(self).tables,
            forall|b: u64| final(self).transposition_table.lookup(b) is None,
    {
        self.transposition_table.clear();
        proof {
            assert forall|b: u64| self.transposition_table.lookup(b) is None by {
                crate::transposition_table::lemma_cache_clear_get(self.transposition_table, b);
            }
        }
    }
}

/// At depth zero a move value is a static evaluation plus one reward, so
/// it stays far below the value ceiling.
proof fn lemma_move_level_zero_bound<F: VFunction>(f: F, b: u64)
    requires
        f.wf(),
    ensures
        -VAL_BOUND <= pure_move(f, b, 0) <= VAL_BOUND,
{
    let ms = legal_moves(b);
    if ms.len() > 0 {
        crate::board::lemma_board_empties_bound(b);
        lemma_move_max_zero_bound(f, ms, 0, board_score(b));
    }
}

/// The depth-zero move maximum over any move suffix is bounded by the
/// evaluation range plus one reward.
proof fn lemma_move_max_zero_bound<F: VFunction>(f: F, ms: Seq<(Direction, u64)>, i: int, base: int)
    requires
        f.wf(),
        0 <= i < ms.len(),
        0 <= base <= 16 * 458752,
    ensures
        -VAL_BOUND <= pure_move_max(f, ms, i, 0, base) <= VAL_BOUND,
    decreases ms.len() - i
{
    f.lemma_eval_bound(ms[i].1);
    crate::board::lemma_board_empties_bound(ms[i].1);
    assert(pure_spawn(f, ms[i].1, 0) == f.eval_spec(ms[i].1));
    if i < ms.len() - 1 {
        lemma_move_max_zero_bound(f, ms, i + 1, base);
    }
}

/// At depth one every branch value is a reward plus a static evaluation,
/// so the weighted sum stays within the weight total times the ceiling.
proof fn lemma_spawn_level_one_bound<F: VFunction>(f: F, lst: Seq<(TileSpawn, u64)>, i: int, d: u8)
    requires
        f.wf(),
        d == 1,
        0 <= i <= lst.len(),
    ensures
        -(sum_rel(lst.skip(i)) * VAL_BOUND) <= pure_spawn_sum(f, lst, i, d) <= sum_rel(lst.skip(i))
            * VAL_BOUND,
    decreases lst.len() - i
{
    if i >= lst.len() {
        assert(lst.skip(i) =~= Seq::<(TileSpawn, u64)>::empty());
    } else {
        lemma_spawn_level_one_bound(f, lst, i + 1, d);
        let rel = rel_prob(lst[i].0);
        let nd = next_depth(d, lst[i].0);
        assert(nd == 0);
        lemma_move_level_zero_bound(f, lst[i].1);
        let pm = pure_move(f, lst[i].1, 0);
        let rest = pure_spawn_sum(f, lst, i + 1, d);
        let srest = sum_rel(lst.skip(i + 1));
        assert(lst.skip(i)[0] == lst[i]);
        assert(lst.skip(i).drop_first() =~= lst.skip(i + 1));
        assert(sum_rel(lst.skip(i)) == rel + srest);
        assert(-(rel * VAL_BOUND) <= rel * pm <= rel * VAL_BOUND) by (nonlinear_arith)
            requires 1 <= rel <= 9, -VAL_BOUND <= pm <= VAL_BOUND
        ;
        assert((rel + srest) * VAL_BOUND == rel * VAL_BOUND + srest * VAL_BOUND)
            by (nonlinear_arith);
    }
}

} // verus!
