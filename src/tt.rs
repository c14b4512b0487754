//! Transposition table: cached search results keyed by position.

use vstd::prelude::*;
use std::collections::HashMap;

verus! {

broadcast use vstd::std_specs::hash::group_hash_axioms;

/// The stored score is the exact value.
pub const TT_EXACT: u8 = 0;

/// The stored score is a lower bound (the search failed high).
pub const TT_LOWER: u8 = 1;

/// The stored score is an upper bound (the search failed low).
pub const TT_UPPER: u8 = 2;

/// Largest magnitude of any score the search produces.
pub const SCORE_BOUND: i32 = 1_000_128;

/// A cached result: searched depth, score, bound flag and best move.
#[derive(Clone, Copy)]
pub struct TTEntry {
    pub depth: i8,
    pub score: i32,
    pub flag: u8,
    pub best_move: u8,
}

impl TTEntry {
    /// Fields in the ranges the search uses.
    pub open spec fn valid(self) -> bool {
        &&& -SCORE_BOUND <= self.score <= SCORE_BOUND
        &&& self.best_move < 64
        &&& self.flag <= TT_UPPER
    }
}

/// Key of a position: both masks and the side to move.
pub open spec fn key_of(p1: u64, p2: u64, p1_to_move: bool) -> u128 {
    ((p1 as u128) << 65u128) | ((p2 as u128) << 1u128) | (if p1_to_move { 1u128 } else { 0u128 })
}

/// Key of a position: `(p1 << 65) | (p2 << 1) | turn`.
pub fn tt_key(p1: u64, p2: u64, p1_to_move: bool) -> (r: u128)
    ensures
        r == key_of(p1, p2, p1_to_move),
{
    let turn_bit: u128 = if p1_to_move { 1 } else { 0 };
    ((p1 as u128) << 65u128) | ((p2 as u128) << 1u128) | turn_bit
}

/// Cache from position key to search result.
pub struct TranspositionTable {
    entries: HashMap<u128, TTEntry>,
}

impl View for TranspositionTable {
    type V = Map<u128, TTEntry>;

    closed spec fn view(&self) -> Map<u128, TTEntry> {
        self.entries@
    }
}

impl TranspositionTable {
    /// Every entry is valid.
    pub open spec fn wf(&self) -> bool {
        forall|k: u128| #[trigger] self@.contains_key(k) ==> self@[k].valid()
    }

    /// An empty table.
    pub fn new() -> (r: TranspositionTable)
        ensures
            r@ == Map::<u128, TTEntry>::empty(),
            r.wf(),
    {
        TranspositionTable { entries: HashMap::new() }
    }

    /// The entry stored for the position, if any.
    pub fn lookup(&self, p1: u64, p2: u64, p1_to_move: bool) -> (r: Option<TTEntry>)
        ensures
            ({
                let k = key_of(p1, p2, p1_to_move);
                if self@.contains_key(k) {
                    r == Some(self@[k])
                } else {
                    r.is_none()
                }
            }),
    {
        let key = tt_key(p1, p2, p1_to_move);
        match self.entries.get(&key) {
            Some(e) => Some(*e),
            None => None,
        }
    }

    /// Stores `entry` for the position unless the stored entry was searched strictly deeper.
    pub fn store(&mut self, p1: u64, p2: u64, p1_to_move: bool, entry: TTEntry)
        requires
            old(self).wf(),
            entry.valid(),
        ensures
            final(self).wf(),
            ({
                let k = key_of(p1, p2, p1_to_move);
                if old(self)@.contains_key(k) && old(self)@[k].depth > entry.depth {
                    final(self)@ == old(self)@
                } else {
                    final(self)@ == old(self)@.insert(k, entry)
                }
            }),
    {
        let key = tt_key(p1, p2, p1_to_move);
        match self.entries.get(&key) {
            Some(existing) => {
                if existing.depth > entry.depth {
                    return;
                }
            },
            None => {},
        }
        let ghost before = self@;
        self.entries.insert(key, entry);
        assert(self@ == before.insert(key, entry));
        assert forall|k: u128| #[trigger] self@.contains_key(k) implies self@[k].valid() by {
            if k != key {
                assert(before.contains_key(k));
            }
        }
    }

    /// Drops every entry.
    pub fn clear(&mut self)
        ensures
            final(self)@ == Map::<u128, TTEntry>::empty(),
            final(self).wf(),
    {
        self.entries.clear();
    }
}

} // verus!
