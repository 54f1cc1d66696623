//! The transposition table shared by the search threads.
//!
//! The table lives in a `dashmap::DashMap`, so every thread reads and writes
//! it concurrently. Because of that, a probe can return whatever some
//! thread stored under the key, or nothing at all: the search treats a
//! probe's answer as an outside input and checks what it reads.

use std::sync::Arc;
use vstd::prelude::*;
use dashmap::DashMap;
use crate::board::Board;
use crate::search::{spec_tt_retrieve_score, tt_retrieve_score, INF, MAX_PLY};
use crate::types::Move;

verus! {

#[verifier::external_type_specification]
#[verifier::external_body]
#[verifier::reject_recursive_types(K)]
#[verifier::reject_recursive_types(V)]
#[verifier::reject_recursive_types(S)]
pub struct ExDashMap<K, V, S>(DashMap<K, V, S>);

/// How a stored score relates to the true value of the position.
#[derive(Debug, Clone, Copy, PartialEq, Eq, Structural)]
pub enum TTFlag {
    Exact,
    LowerBound,
    UpperBound,
}

/// One remembered search result.
#[derive(Debug, Clone, Copy)]
pub struct TTEntry {
    pub score: i32,
    pub depth: u32,
    pub flag: TTFlag,
    pub best_move: Option<Move>,
}

/// The key of a position: the board's incrementally kept Zobrist hash.
pub fn zobrist_key(board: &Board) -> (key: u64)
    ensures
        key == board.zobrist,
{
    board.zobrist
}

/// What a probe of the table decides from the entry it read: a score that
/// answers the node when the entry is deep enough, holds a real score, and
/// is exact or a bound that already settles the window (`alpha`, `beta`);
/// and the entry's best move, to be tried first. A real score lies within
/// `[-INF, INF]`: entries holding anything else (such as the `-INF - ply`
/// that a node stopped before searching a move stores) never answer a node,
/// so that every score the search returns stays within that band; their
/// best move is still tried first.
pub open spec fn spec_table_cutoff(e: Option<TTEntry>, depth: u32, alpha: i32, beta: i32, ply: usize) -> (
    Option<i32>,
    Option<Move>,
) {
    match e {
        None => (None, None),
        Some(entry) => {
            let adjusted = spec_tt_retrieve_score(entry.score as int, ply as int);
            let cut = entry.depth >= depth && -INF <= entry.score <= INF && (entry.flag == TTFlag::Exact || (
            entry.flag == TTFlag::LowerBound && adjusted >= beta) || (entry.flag == TTFlag::UpperBound && adjusted
                <= alpha));
            (
                if cut {
                    Some(adjusted as i32)
                } else {
                    None
                },
                entry.best_move,
            )
        },
    }
}

/// Decide what a probed entry gives the node searching at `depth` and `ply`
/// within (`alpha`, `beta`).
pub fn table_cutoff(e: Option<TTEntry>, depth: u32, alpha: i32, beta: i32, ply: usize) -> (r: (Option<i32>, Option<Move>))
    requires
        ply <= MAX_PLY,
    ensures
        r == spec_table_cutoff(e, depth, alpha, beta, ply),
        r.0 matches Some(s) ==> -INF <= s <= INF,
{
    match e {
        None => (None, None),
        Some(entry) => {
            if entry.depth >= depth && -INF <= entry.score && entry.score <= INF {
                let adjusted = tt_retrieve_score(entry.score, ply);
                let cut = match entry.flag {
                    TTFlag::Exact => true,
                    TTFlag::LowerBound => adjusted >= beta,
                    TTFlag::UpperBound => adjusted <= alpha,
                };
                if cut {
                    return (Some(adjusted), entry.best_move);
                }
            }
            (None, entry.best_move)
        },
    }
}

/// A concurrent map from position keys to search results.
pub struct TranspositionTable {
    map: DashMap<u64, TTEntry>,
}

impl TranspositionTable {
    /// An empty table with room for about a million entries
    /// (`DashMap::with_capacity`).
    #[verifier::external_body]
    pub fn new() -> (t: Self) {
        TranspositionTable { map: DashMap::with_capacity(1_048_576) }
    }

    /// The key and a copy of the entry that the map holds under `key`, if any
    /// (`DashMap::get`, then `Ref::key` and `Ref::value`). The map finds an
    /// entry only under a key equal to `key`. Other threads write to the
    /// table at any time, so nothing more is promised of the answer: it is
    /// whatever some thread last stored under `key`, or `None`.
    #[verifier::external_body]
    fn lookup(&self, key: u64) -> (found: Option<(u64, TTEntry)>)
        ensures
            found matches Some((k, _)) ==> k == key,
    {
        match self.map.get(&key) {
            Some(r) => Some((*r.key(), *r.value())),
            None => None,
        }
    }

    /// A copy of the entry stored under `key`, if any: whatever some thread
    /// last stored there, or `None`.
    pub fn get(&self, key: u64) -> (e: Option<TTEntry>) {
        match self.lookup(key) {
            Some((_, entry)) => Some(entry),
            None => None,
        }
    }

    /// Store `entry` under `key`, replacing what was there (`DashMap::insert`).
    #[verifier::external_body]
    pub fn store(&self, key: u64, entry: TTEntry) {
        self.map.insert(key, entry);
    }

    /// Remove every entry (`DashMap::clear`).
    #[verifier::external_body]
    pub fn clear(&self) {
        self.map.clear();
    }
}

/// The shared table as one search thread uses it. Each probe is logged with
/// the key the map was asked for and the entry it gave, each probe that
/// answers a node is counted, and each entry the thread stores is logged;
/// probing and recording are the only ways these grow.
pub struct SharedTable {
    table: Arc<TranspositionTable>,
    answers: Ghost<nat>,
    probes: Ghost<Seq<(u64, Option<TTEntry>)>>,
    stores: Ghost<Seq<(u64, TTEntry)>>,
}

impl SharedTable {
    /// How many probes so far answered a node.
    pub closed spec fn answers(&self) -> nat {
        self.answers@
    }

    /// The probes so far through this handle: the key looked up and the
    /// entry found.
    pub closed spec fn probes(&self) -> Seq<(u64, Option<TTEntry>)> {
        self.probes@
    }

    /// The entries stored so far through this handle, with their keys.
    pub closed spec fn stores(&self) -> Seq<(u64, TTEntry)> {
        self.stores@
    }

    /// The shared table used.
    pub closed spec fn table(&self) -> Arc<TranspositionTable> {
        self.table
    }

    pub fn new(table: Arc<TranspositionTable>) -> (t: Self)
        ensures
            t.answers() == 0,
            t.probes().len() == 0,
            t.stores().len() == 0,
            t.table() == table,
    {
        SharedTable { table, answers: Ghost(0), probes: Ghost(Seq::empty()), stores: Ghost(Seq::empty()) }
    }

    /// Look up `key` in the table, log the key the map answered for with the
    /// entry it gave, and decide with `table_cutoff` what that entry gives the
    /// node; an answer is counted. The entry is whatever some thread last
    /// stored under `key`, or none.
    pub fn probe(&mut self, key: u64, depth: u32, alpha: i32, beta: i32, ply: usize) -> (r: (Option<i32>, Option<Move>))
        requires
            ply <= MAX_PLY,
        ensures
            final(self).probes().len() == old(self).probes().len() + 1,
            final(self).probes().drop_last() == old(self).probes(),
            final(self).probes().last().0 == key,
            r == spec_table_cutoff(final(self).probes().last().1, depth, alpha, beta, ply),
            r.0 matches Some(s) ==> -INF <= s <= INF,
            final(self).answers() == old(self).answers() + if r.0 is Some {
                1nat
            } else {
                0nat
            },
            final(self).stores() == old(self).stores(),
            final(self).table() == old(self).table(),
    {
        let found = self.table.lookup(key);
        let ghost k: u64 = match found {
            Some((fk, _)) => fk,
            None => key,
        };
        let e = match found {
            Some((_, entry)) => Some(entry),
            None => None,
        };
        let r = table_cutoff(e, depth, alpha, beta, ply);
        if r.0.is_some() {
            self.answers = Ghost(self.answers@ + 1);
        }
        self.probes = Ghost(self.probes@.push((k, e)));
        proof {
            assert(self.probes@.drop_last() =~= old(self).probes@);
        }
        r
    }

    /// Store `entry` under `key`, and log it.
    pub fn record(&mut self, key: u64, entry: TTEntry)
        ensures
            final(self).stores() == old(self).stores().push((key, entry)),
            final(self).answers() == old(self).answers(),
            final(self).probes() == old(self).probes(),
            final(self).table() == old(self).table(),
    {
        self.table.store(key, entry);
        self.stores = Ghost(self.stores@.push((key, entry)));
    }
}

} // verus!
