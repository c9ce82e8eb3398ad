//! A fixed-size direct-mapped cache of position evaluations, keyed by the
//! packed board. Collisions evict; a deeper stored evaluation of the same
//! board survives a shallower one.

use vstd::prelude::*;
use std::hash::Hasher;
use crate::board::Board;

verus! {

/// The FNV-1a hash of a board's packed bits, fed in as its eight
/// little-endian bytes. The hash is seedless and depends on the bits
/// alone.
pub uninterp spec fn fnv_hash(b: u64) -> u64;

/// Relies on `fnv::FnvHasher`: a seedless FNV-1a over the bytes written,
/// so the result is a function of the input bits alone.
#[verifier::external_body]
fn fnv_of(b: u64) -> (r: u64)
    ensures
        r == fnv_hash(b),
{
    let mut hasher = fnv::FnvHasher::default();
    hasher.write(&b.to_le_bytes());
    hasher.finish()
}

/// The result of a single position evaluation at a certain depth. The
/// score is the engine's fixed-point expectimax value.
#[derive(Clone, Copy, PartialEq, Eq, Structural, Debug)]
pub struct PositionEval {
    pub depth: u8,
    pub score: i128,
}

impl PositionEval {
    pub fn new(depth: u8, score: i128) -> (r: PositionEval)
        ensures
            r.depth == depth,
            r.score == score,
    {
        PositionEval { depth, score }
    }
}

/// The cache slot a board maps to.
pub open spec fn bucket_of(b: u64, size: int) -> int {
    fnv_hash(b) as int % size
}

/// What a lookup of `b` finds in a slot sequence: the entry in `b`'s
/// slot, if it is occupied by `b` itself.
pub open spec fn cache_lookup(c: Seq<Option<(Board, PositionEval)>>, b: u64) -> Option<
    PositionEval,
> {
    if c.len() == 0 {
        None
    } else {
        match c[bucket_of(b, c.len() as int)] {
            Some((eb, ev)) => if eb.0 == b {
                Some(ev)
            } else {
                None
            },
            None => None,
        }
    }
}

/// The slot sequence after a store: an empty slot is filled, a slot
/// holding the same board keeps the deeper of the two evaluations, a slot
/// holding a different board is overwritten.
pub open spec fn cache_set(
    c: Seq<Option<(Board, PositionEval)>>,
    b: u64,
    e: PositionEval,
) -> Seq<Option<(Board, PositionEval)>> {
    if c.len() == 0 {
        c
    } else {
        let i = bucket_of(b, c.len() as int);
        c.update(
            i,
            match c[i] {
                Some((eb, ev)) => if eb.0 == b && ev.depth > e.depth {
                    Some((eb, ev))
                } else {
                    Some((Board(b), e))
                },
                None => Some((Board(b), e)),
            },
        )
    }
}

/// A direct-mapped cache of `(board, evaluation)` pairs.
pub struct TranspositionTable {
    slots: Vec<Option<(Board, PositionEval)>>,
}

impl TranspositionTable {
    /// The slots of the cache.
    pub closed spec fn view(&self) -> Seq<Option<(Board, PositionEval)>> {
        self.slots@
    }

    /// A usable cache has at least one slot.
    pub open spec fn wf(&self) -> bool {
        self@.len() >= 1
    }

    /// What a lookup of `b` finds: the entry in `b`'s slot, if it is
    /// occupied by `b` itself.
    pub open spec fn lookup(&self, b: u64) -> Option<PositionEval> {
        cache_lookup(self@, b)
    }

    /// An empty cache with the given number of slots.
    pub fn new(size: usize) -> (r: TranspositionTable)
        requires
            size >= 1,
        ensures
            r.wf(),
            r@.len() == size,
            forall|i: int| 0 <= i < size ==> r@[i] is None,
    {
        let mut slots: Vec<Option<(Board, PositionEval)>> = Vec::new();
        let mut i: usize = 0;
        while i < size
            invariant
                i <= size,
                slots@.len() == i,
                forall|j: int| 0 <= j < i ==> slots@[j] is None,
            decreases size - i
        {
            slots.push(None);
            i = i + 1;
        }
        TranspositionTable { slots }
    }

    /// The stored evaluation of a board: a hit only when the board's slot
    /// holds that very board.
    pub fn get(&self, board: Board) -> (r: Option<PositionEval>)
        requires
            self.wf(),
        ensures
            r == self.lookup(board.0),
    {
        let i = self.bucket(board);
        match &self.slots[i] {
            Some(entry) => {
                if entry.0.0 == board.0 {
                    Some(entry.1)
                } else {
                    None
                }
            }
            None => None,
        }
    }

    /// Stores an evaluation. An empty slot is filled; a slot holding the
    /// same board keeps the deeper of the two evaluations; a slot holding
    /// a different board is overwritten.
    pub fn set(&mut self, board: Board, eval: PositionEval)
        requires
            old(self).wf(),
        ensures
            final(self).wf(),
            final(self)@.len() == old(self)@.len(),
            final(self)@ == cache_set(old(self)@, board.0, eval),
            ({
                let i = bucket_of(board.0, old(self)@.len() as int);
                &&& (forall|j: int|
                    0 <= j < old(self)@.len() && j != i ==> final(self)@[j] == old(self)@[j])
                &&& final(self)@[i] == (match old(self)@[i] {
                    Some((eb, ev)) => if eb.0 == board.0 && ev.depth > eval.depth {
                        Some((eb, ev))
                    } else {
                        Some((board, eval))
                    },
                    None => Some((board, eval)),
                })
            }),
    {
        let i = self.bucket(board);
        match &self.slots[i] {
            Some(entry) => {
                if entry.0.0 == board.0 {
                    if entry.1.depth <= eval.depth {
                        self.slots.set(i, Some((board, eval)));
                    } else {
                        proof {
                            assert(self@ =~= cache_set(old(self)@, board.0, eval));
                        }
                    }
                } else {
                    self.slots.set(i, Some((board, eval)));
                }
            }
            None => {
                self.slots.set(i, Some((board, eval)));
            }
        }
        proof {
            assert(self@ =~= cache_set(old(self)@, board.0, eval));
        }
    }

    /// Empties every slot.
    pub fn clear(&mut self)
        requires
            old(self).wf(),
        ensures
            final(self).wf(),
            final(self)@.len() == old(self)@.len(),
            forall|i: int| 0 <= i < final(self)@.len() ==> final(self)@[i] is None,
    {
        let len = self.slots.len();
        let mut i: usize = 0;
        while i < len
            invariant
                i <= len,
                self.slots@.len() == len,
                forall|j: int| 0 <= j < i ==> self.slots@[j] is None,
            decreases len - i
        {
            self.slots.set(i, None);
            i = i + 1;
        }
    }

    /// The slot index of a board.
    fn bucket(&self, board: Board) -> (i: usize)
        requires
            self.wf(),
        ensures
            i == bucket_of(board.0, self@.len() as int),
            i < self@.len(),
    {
        let h = fnv_of(board.0);
        (h % (self.slots.len() as u64)) as usize
    }
}

/// After a store, a lookup of the same board finds an evaluation at least
/// as deep as the one stored; every other hit is unchanged only if its
/// board lives in another slot.
pub proof fn lemma_cache_set_get(pre: TranspositionTable, post: TranspositionTable, b: u64, e: PositionEval)
    requires
        pre.wf(),
        post@.len() == pre@.len(),
        ({
            let i = bucket_of(b, pre@.len() as int);
            &&& (forall|j: int| 0 <= j < pre@.len() && j != i ==> post@[j] == pre@[j])
            &&& post@[i] == (match pre@[i] {
                Some((eb, ev)) => if eb.0 == b && ev.depth > e.depth {
                    Some((eb, ev))
                } else {
                    Some((b_board(b), e))
                },
                None => Some((b_board(b), e)),
            })
        }),
    ensures
        post.lookup(b) is Some,
        post.lookup(b)->Some_0.depth >= e.depth,
        post.lookup(b)->Some_0 == e || post.lookup(b)->Some_0 == pre.lookup(b)->Some_0,
{
    let i = bucket_of(b, pre@.len() as int);
    match pre@[i] {
        Some((eb, ev)) => {
            if eb.0 == b && ev.depth > e.depth {
                assert(post.lookup(b) == Some(ev));
            } else {
                assert(post.lookup(b) == Some(e));
            }
        }
        None => {
            assert(post.lookup(b) == Some(e));
        }
    }
}

/// A board wrapped for the cache-law statements.
pub open spec fn b_board(b: u64) -> Board {
    Board(b)
}

/// After a clear, every lookup misses.
pub proof fn lemma_cache_clear_get(t: TranspositionTable, b: u64)
    requires
        t.wf(),
        forall|i: int| 0 <= i < t@.len() ==> t@[i] is None,
    ensures
        t.lookup(b) is None,
{
}

} // verus!
