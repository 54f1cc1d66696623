//! Alpha-beta search with principal-variation windows, null-move pruning,
//! futility pruning, late-move reductions, check extensions, a shared
//! transposition table, killer and history move ordering, and quiescence.
//!
//! Several threads search the same position at once (Lazy SMP); each runs
//! a `SearchThread`. They share the transposition table and a stop flag,
//! which another thread raises when the time is up. Both are outside inputs
//! to a thread: what a table probe returns and when the flag rises are not
//! known in advance, and the contracts hold whatever they are.

use std::sync::Arc;
use std::sync::atomic::AtomicBool;
use vstd::prelude::*;
use crate::board::{cells_after_move, in_check, legal_captures, legal_moves, pseudo_captures, pseudo_moves, Board, Cell};
use crate::move_facts::{lemma_moves_of_side, side_move};
use crate::move_sort::{lemma_sort_elements, sort_desc, sort_desc_by_key, Keyed};
use crate::stop_flag::StopFlag;
use crate::search_log::{
    lemma_prefix_refl, lemma_root_run_prefix, lemma_run_prefix, node_value, root_run, root_step, root_value, RootLog, prefix_of, lemma_prefix_trans, run, searched_score, spec_reduction,
    MoveStep, NodeLog, SearchCall,
};
use crate::tt::{spec_table_cutoff, zobrist_key, SharedTable, TTEntry, TTFlag, TranspositionTable};
use crate::types::{Color, Move, PieceKind};

verus! {

/// Result of a completed search.
#[derive(Debug, Clone, Copy)]
pub struct SearchResult {
    pub best_move: Move,
    /// Score in centipawns (positive = good for the side to move).
    pub score: i32,
    /// How many plies (half-moves) of iterative deepening were completed.
    pub depth: u32,
}

pub const INF: i32 = 999_999;

pub const MATE_SCORE: i32 = 90_000;

pub const MAX_PLY: usize = 128;

/// Scores at least this far from zero are mate scores.
pub open spec fn mate_threshold() -> int {
    MATE_SCORE - MAX_PLY
}

/// Null-move reduction: R = 2 + depth/6.
pub fn null_move_r(depth: u32) -> (r: u32)
    ensures
        r == 2 + depth / 6,
{
    2 + depth / 6
}

pub open spec fn spec_futility_margin(depth: u32) -> int {
    if depth == 0 {
        0
    } else if depth == 1 {
        100
    } else if depth == 2 {
        250
    } else if depth == 3 {
        450
    } else {
        700
    }
}

/// Futility margin: the most a quiet move is expected to gain at a depth.
pub fn futility_margin(depth: u32) -> (m: i32)
    ensures
        m == spec_futility_margin(depth),
{
    match depth {
        0 => 0,
        1 => 100,
        2 => 250,
        3 => 450,
        _ => 700,
    }
}

/// Mate scores are relative to the current ply; the table stores them
/// relative to the root, so they stay valid at other depths.
pub open spec fn spec_tt_store_score(score: int, ply: int) -> int {
    if score >= mate_threshold() {
        score + ply
    } else if score <= -mate_threshold() {
        score - ply
    } else {
        score
    }
}

pub open spec fn spec_tt_retrieve_score(stored: int, ply: int) -> int {
    if stored >= mate_threshold() {
        stored - ply
    } else if stored <= -mate_threshold() {
        stored + ply
    } else {
        stored
    }
}

pub fn tt_store_score(score: i32, ply: usize) -> (s: i32)
    requires
        ply <= i32::MAX,
        score >= mate_threshold() ==> score + ply <= i32::MAX,
        score <= -mate_threshold() ==> score - ply >= i32::MIN,
    ensures
        s == spec_tt_store_score(score as int, ply as int),
{
    if score >= MATE_SCORE - MAX_PLY as i32 {
        score + ply as i32
    } else if score <= -(MATE_SCORE - MAX_PLY as i32) {
        score - ply as i32
    } else {
        score
    }
}

pub fn tt_retrieve_score(stored: i32, ply: usize) -> (s: i32)
    requires
        ply <= i32::MAX,
        stored >= mate_threshold() ==> stored - ply >= i32::MIN,
        stored <= -mate_threshold() ==> stored + ply <= i32::MAX,
    ensures
        s == spec_tt_retrieve_score(stored as int, ply as int),
{
    if stored >= MATE_SCORE - MAX_PLY as i32 {
        stored - ply as i32
    } else if stored <= -(MATE_SCORE - MAX_PLY as i32) {
        stored + ply as i32
    } else {
        stored
    }
}

/// Reading back a stored score at the same ply gives the score that was stored.
pub proof fn lemma_tt_score_round_trip(score: int, ply: int)
    requires
        ply >= 0,
    ensures
        spec_tt_retrieve_score(spec_tt_store_score(score, ply), ply) == score,
{
}

// ---------------------------------------------------------------------------
// Move ordering
// ---------------------------------------------------------------------------

/// Two moves between the same squares.
pub open spec fn same_squares(a: Move, b: Move) -> bool {
    a.from == b.from && a.to == b.to
}

/// The nominal value of the piece on a square (0 when empty).
pub open spec fn value_on(cells: Seq<Cell>, sq: int) -> int {
    match cells[sq] {
        Some((_, k)) => k.spec_value(),
        None => 0,
    }
}

/// Capture ordering by a simple exchange estimate (victim minus attacker):
/// winning trades near the hash move, equal trades above killers, losing
/// trades above history but below killers.
pub open spec fn capture_key(cells: Seq<Cell>, mv: Move) -> int {
    let see = value_on(cells, mv.to as int) - value_on(cells, mv.from as int);
    if see > 0 {
        800_000 + see * 10
    } else if see == 0 {
        500_000
    } else if 200_000 + see * 10 > 0 {
        200_000 + see * 10
    } else {
        0
    }
}

fn value_at(board: &Board, sq: u8) -> (v: i32)
    requires
        sq < 64,
    ensures
        v == value_on(board.cells(), sq as int),
        0 <= v <= 10_000,
{
    match board.get(sq as usize) {
        Some((_, k)) => k.value(),
        None => 0,
    }
}

/// The ordering key of a capture.
pub fn capture_score(board: &Board, mv: &Move) -> (s: i32)
    requires
        mv.from < 64,
        mv.to < 64,
    ensures
        s == capture_key(board.cells(), *mv),
{
    let victim = value_at(board, mv.to);
    let attacker = value_at(board, mv.from);
    let see = victim - attacker;
    if see > 0 {
        800_000 + see * 10
    } else if see == 0 {
        500_000
    } else if 200_000 + see * 10 > 0 {
        200_000 + see * 10
    } else {
        0
    }
}

/// Per-thread move-ordering state: two killer moves per ply and a history
/// score per (from, to) pair.
pub struct MoveHeuristics {
    killers: [[Option<Move>; 2]; 128],
    history: [[i32; 64]; 64],
}

impl MoveHeuristics {
    /// The `i`-th killer move at `ply`.
    pub closed spec fn killer(&self, ply: int, i: int) -> Option<Move> {
        self.killers@[ply]@[i]
    }

    /// The history score of moves from `from` to `to`.
    pub closed spec fn history_at(&self, from: int, to: int) -> int {
        self.history@[from]@[to] as int
    }

    /// History scores stay within 0..=100_000.
    pub closed spec fn wf(&self) -> bool {
        forall|f: int, t: int|
            0 <= f < 64 && 0 <= t < 64 ==> 0 <= #[trigger] self.history@[f]@[t] <= 100_000
    }

    /// The ordering score of `mv`: the hash move first, then captures by
    /// exchange estimate, then the two killers of the ply, then history.
    pub open spec fn order_score(&self, cells: Seq<Cell>, mv: Move, ply: int, hash_move: Option<Move>) -> int {
        if hash_move matches Some(h) && same_squares(h, mv) {
            1_000_000
        } else if mv.capture {
            capture_key(cells, mv)
        } else if ply < MAX_PLY && (self.killer(ply, 0) matches Some(k) && same_squares(k, mv)) {
            400_000
        } else if ply < MAX_PLY && (self.killer(ply, 1) matches Some(k) && same_squares(k, mv)) {
            390_000
        } else if self.history_at(mv.from as int, mv.to as int) > 0 {
            self.history_at(mv.from as int, mv.to as int)
        } else {
            0
        }
    }

    pub fn new() -> (t: Self)
        ensures
            t.wf(),
            forall|p: int, i: int| 0 <= p < 128 && 0 <= i < 2 ==> (#[trigger] t.killer(p, i)) is None,
            forall|f: int, to: int| 0 <= f < 64 && 0 <= to < 64 ==> #[trigger] t.history_at(f, to) == 0,
    {
        let t = MoveHeuristics { killers: [[None; 2]; 128], history: [[0i32; 64]; 64] };
        t
    }

    pub fn move_score(&self, mv: &Move, board: &Board, ply: usize, hash_move: Option<&Move>) -> (s: i32)
        requires
            self.wf(),
            mv.from < 64,
            mv.to < 64,
        ensures
            s == self.order_score(
                board.cells(),
                *mv,
                ply as int,
                match hash_move {
                    Some(h) => Some(*h),
                    None => None,
                },
            ),
    {
        // Hash move gets highest priority
        if let Some(hm) = hash_move {
            if hm.from == mv.from && hm.to == mv.to {
                return 1_000_000;
            }
        }
        if mv.capture {
            return capture_score(board, mv);
        }
        // Killer moves
        if ply < MAX_PLY {
            if let Some(k) = self.killers[ply][0] {
                if k.from == mv.from && k.to == mv.to {
                    return 400_000;
                }
            }
            if let Some(k) = self.killers[ply][1] {
                if k.from == mv.from && k.to == mv.to {
                    return 390_000;
                }
            }
        }
        // History heuristic
        let hist = self.history[mv.from as usize][mv.to as usize];
        if hist > 0 {
            return hist;
        }
        0
    }

    /// Remember a quiet move that caused a cutoff at `ply` as the first killer,
    /// shifting the previous first killer to second place, unless it already
    /// is the first killer.
    pub fn store_killer(&mut self, mv: Move, ply: usize)
        requires
            old(self).wf(),
        ensures
            final(self).wf(),
            forall|f: int, t: int| #[trigger] final(self).history_at(f, t) == old(self).history_at(f, t),
            forall|p: int, i: int|
                0 <= p < 128 && p != ply && 0 <= i < 2 ==> #[trigger] final(self).killer(p, i) == old(self).killer(p, i),
            ply < MAX_PLY ==> if old(self).killer(ply as int, 0) matches Some(k) && same_squares(k, mv) {
                final(self).killer(ply as int, 0) == old(self).killer(ply as int, 0) && final(self).killer(ply as int, 1) == old(self).killer(ply as int, 1)
            } else {
                final(self).killer(ply as int, 0) == Some(mv) && final(self).killer(ply as int, 1) == old(self).killer(ply as int, 0)
            },
    {
        if ply >= MAX_PLY {
            return;
        }
        // Don't store the same move twice
        if let Some(k) = self.killers[ply][0] {
            if k.from == mv.from && k.to == mv.to {
                return;
            }
        }
        let first = self.killers[ply][0];
        let mut row = self.killers[ply];
        row[1] = first;
        row[0] = Some(mv);
        self.killers[ply] = row;
    }

    /// Raise the history score of a quiet move that caused a cutoff at
    /// `depth` by `min(depth * depth, 400)`; when the score passes 100_000,
    /// halve every history score.
    pub fn reward_history(&mut self, mv: Move, depth: u32)
        requires
            old(self).wf(),
            mv.from < 64,
            mv.to < 64,
            depth <= 46340,
        ensures
            final(self).wf(),
            forall|p: int, i: int| #[trigger] final(self).killer(p, i) == old(self).killer(p, i),
            ({
                let bumped = old(self).history_at(mv.from as int, mv.to as int) + if depth * depth < 400 {
                    depth * depth
                } else {
                    400
                };
                let raised = |f: int, t: int|
                    if f == mv.from && t == mv.to {
                        bumped
                    } else {
                        old(self).history_at(f, t)
                    };
                forall|f: int, t: int|
                    0 <= f < 64 && 0 <= t < 64 ==> #[trigger] final(self).history_at(f, t) == if bumped > 100_000 {
                        raised(f, t) / 2
                    } else {
                        raised(f, t)
                    }
            }),
    {
        assert(depth * depth <= 46340 * 46340) by (nonlinear_arith)
            requires
                depth <= 46340,
        ;
        let d: i32 = depth as i32 * depth as i32;
        let bonus: i32 = if d < 400 { d } else { 400 };
        let from = mv.from as usize;
        let to = mv.to as usize;
        let mut row = self.history[from];
        let bumped = row[to] + bonus;
        row[to] = bumped;
        self.history[from] = row;
        proof {
            assert(forall|f: int, t: int|
                0 <= f < 64 && 0 <= t < 64 ==> #[trigger] self.history@[f]@[t] == if f == from && t == to {
                    bumped as int
                } else {
                    old(self).history@[f]@[t] as int
                });
        }
        if bumped > 100_000 {
            // Decay history to prevent saturation
            self.halve_history();
        }
    }

    /// Halve every history score.
    fn halve_history(&mut self)
        requires
            forall|f: int, t: int|
                0 <= f < 64 && 0 <= t < 64 ==> 0 <= #[trigger] old(self).history@[f]@[t] <= 100_400,
        ensures
            final(self).killers == old(self).killers,
            forall|f: int, t: int|
                0 <= f < 64 && 0 <= t < 64 ==> #[trigger] final(self).history@[f]@[t] == old(self).history@[f]@[t] / 2,
            final(self).wf(),
    {
        let mut f: usize = 0;
        while f < 64
            invariant
                f <= 64,
                self.killers == old(self).killers,
                forall|ff: int, t: int|
                    0 <= ff < 64 && 0 <= t < 64 ==> #[trigger] self.history@[ff]@[t] == if ff < f {
                        old(self).history@[ff]@[t] / 2
                    } else {
                        old(self).history@[ff]@[t] as int
                    },
                forall|ff: int, t: int|
                    0 <= ff < 64 && 0 <= t < 64 ==> 0 <= #[trigger] old(self).history@[ff]@[t] <= 100_400,
            decreases 64 - f,
        {
            let mut row = self.history[f];
            let ghost old_row = row;
            let mut t: usize = 0;
            while t < 64
                invariant
                    t <= 64,
                    f < 64,
                    old_row == old(self).history@[f as int],
                    forall|ff: int, tt: int|
                        0 <= ff < 64 && 0 <= tt < 64 ==> 0 <= #[trigger] old(self).history@[ff]@[tt] <= 100_400,
                    forall|tt: int|
                        0 <= tt < 64 ==> #[trigger] row@[tt] == if tt < t {
                            old_row@[tt] / 2
                        } else {
                            old_row@[tt] as int
                        },
                decreases 64 - t,
            {
                row[t] = row[t] / 2;
                t += 1;
            }
            self.history[f] = row;
            f += 1;
        }
    }
}


// ---------------------------------------------------------------------------
// Facts about the move lists the search walks
// ---------------------------------------------------------------------------

/// Every move starts and ends on the board.
pub open spec fn on_board_moves(s: Seq<Move>) -> bool {
    forall|i: int| 0 <= i < s.len() ==> (#[trigger] s[i]).from < 64 && s[i].to < 64
}

/// Legal moves and legal captures start and end on the board, and there
/// are at most 4096 of them.
pub proof fn lemma_legal_lists(cells: Seq<Cell>, color: Color)
    ensures
        on_board_moves(legal_moves(cells, color)),
        on_board_moves(legal_captures(cells, color)),
        legal_moves(cells, color).len() <= 4096,
        legal_captures(cells, color).len() <= 4096,
{
    broadcast use vstd::seq_lib::group_filter_ensures;
    lemma_moves_of_side(cells, color, false, 64);
    lemma_moves_of_side(cells, color, true, 64);
    let pm = pseudo_moves(cells, color);
    let pc = pseudo_captures(cells, color);
    let lm = legal_moves(cells, color);
    let lc = legal_captures(cells, color);
    let p = crate::board::keeps_king_safe(cells, color);
    assert forall|i: int| 0 <= i < lm.len() implies (#[trigger] lm[i]).from < 64 && lm[i].to < 64 by {
        assert(pm.filter(p).contains(lm[i]));
        pm.lemma_filter_contains_rev(p, lm[i]);
        let j = choose|j: int| 0 <= j < pm.len() && pm[j] == lm[i];
        assert(side_move(cells, color, pm[j]));
    }
    assert forall|i: int| 0 <= i < lc.len() implies (#[trigger] lc[i]).from < 64 && lc[i].to < 64 by {
        assert(pc.filter(p).contains(lc[i]));
        pc.lemma_filter_contains_rev(p, lc[i]);
        let j = choose|j: int| 0 <= j < pc.len() && pc[j] == lc[i];
        assert(side_move(cells, color, pc[j]));
    }
}

/// The moves of a keyed list, in its order.
pub open spec fn moves_of(keyed: Seq<Keyed>) -> Seq<Move> {
    keyed.map_values(|p: Keyed| p.1)
}

/// Sorting a keyed copy of `orig` keeps every move of `orig`.
proof fn lemma_sorted_covers(keyed: Seq<Keyed>, orig: Seq<Move>)
    requires
        keyed.len() == orig.len(),
        forall|i: int| 0 <= i < keyed.len() ==> (#[trigger] keyed[i]).1 == orig[i],
    ensures
        forall|c: Move| #[trigger] orig.contains(c) ==> moves_of(sort_desc(keyed)).contains(c),
{
    lemma_sort_elements(keyed);
    let out = moves_of(sort_desc(keyed));
    assert forall|c: Move| #[trigger] orig.contains(c) implies out.contains(c) by {
        let i = choose|i: int| 0 <= i < orig.len() && orig[i] == c;
        assert(sort_desc(keyed).contains(keyed[i]));
        let k = choose|k: int| 0 <= k < sort_desc(keyed).len() && sort_desc(keyed)[k] == keyed[i];
        assert(out[k] == c);
    }
}

/// Sorting a keyed copy of `orig` gives back moves of `orig`, as many.
proof fn lemma_sorted_moves(keyed: Seq<Keyed>, orig: Seq<Move>)
    requires
        keyed.len() == orig.len(),
        forall|i: int| 0 <= i < keyed.len() ==> (#[trigger] keyed[i]).1 == orig[i],
    ensures
        moves_of(sort_desc(keyed)).len() == orig.len(),
        forall|i: int| 0 <= i < orig.len() ==> orig.contains(#[trigger] moves_of(sort_desc(keyed))[i]),
{
    lemma_sort_elements(keyed);
    let out = moves_of(sort_desc(keyed));
    assert forall|i: int| 0 <= i < orig.len() implies orig.contains(#[trigger] out[i]) by {
        let k = choose|k: int| 0 <= k < keyed.len() && keyed[k] == sort_desc(keyed)[i];
        assert(orig[k] == out[i]);
    }
}

/// The moves of `keyed` sorted by key, highest first, ties in order.
fn sorted_moves(keyed: &Vec<Keyed>) -> (out: Vec<Move>)
    ensures
        out@ == moves_of(sort_desc(keyed@)),
{
    let sorted = sort_desc_by_key(keyed);
    let mut out: Vec<Move> = Vec::new();
    let m = sorted.len();
    let mut k: usize = 0;
    while k < m
        invariant
            m == sorted@.len(),
            0 <= k <= m,
            out@ == moves_of(sorted@).take(k as int),
        decreases m - k,
    {
        out.push(sorted[k].1);
        proof {
            assert(out@ =~= moves_of(sorted@).take(k + 1));
        }
        k += 1;
    }
    proof {
        assert(moves_of(sorted@).take(m as int) =~= moves_of(sorted@));
    }
    out
}

/// The capture keys of `s`, negated: sorting highest first by these puts
/// captures in ascending order of exchange estimate, ties in order.
pub open spec fn capture_keys(cells: Seq<Cell>, s: Seq<Move>) -> Seq<Keyed> {
    s.map_values(|m: Move| ((-capture_key(cells, m)) as i32, m))
}

/// Sorting a keyed copy of moves that stay on the board gives moves that
/// stay on the board, as many.
proof fn lemma_sorted_on_board(keyed: Seq<Keyed>, orig: Seq<Move>)
    requires
        keyed.len() == orig.len(),
        forall|i: int| 0 <= i < keyed.len() ==> (#[trigger] keyed[i]).1 == orig[i],
        on_board_moves(orig),
    ensures
        moves_of(sort_desc(keyed)).len() == orig.len(),
        on_board_moves(moves_of(sort_desc(keyed))),
{
    lemma_sorted_moves(keyed, orig);
    let out = moves_of(sort_desc(keyed));
    assert forall|i: int| 0 <= i < out.len() implies (#[trigger] out[i]).from < 64 && out[i].to < 64 by {
        assert(orig.contains(out[i]));
        let j = choose|j: int| 0 <= j < orig.len() && orig[j] == out[i];
        assert(orig[j].from < 64);
    }
}

/// What a search may answer for `color` on `cells`: a legal move, or the
/// null move when there is none.
pub open spec fn answer_ok(cells: Seq<Cell>, color: Color, mv: Move) -> bool {
    &&& legal_moves(cells, color).len() == 0 ==> mv == (Move { from: 0, to: 0, capture: false })
    &&& legal_moves(cells, color).len() > 0 ==> legal_moves(cells, color).contains(mv)
}

/// The result kept over the threads' results, in thread order: a result
/// replaces the one kept so far only when it reached a greater depth.
pub open spec fn best_of(results: Seq<Option<(Move, i32, u32)>>) -> Option<(Move, i32, u32)>
    decreases results.len(),
{
    if results.len() == 0 {
        None
    } else {
        let kept = best_of(results.drop_last());
        match results.last() {
            None => kept,
            Some(r) => match kept {
                None => Some(r),
                Some(k) => if r.2 > k.2 {
                    Some(r)
                } else {
                    kept
                },
            },
        }
    }
}

/// The answer of a search over several threads: the kept thread result, or
/// when no thread completed an iteration, the first legal move with score
/// and depth 0, or nothing when there is no legal move.
pub open spec fn spec_select_result(cells: Seq<Cell>, turn: Color, results: Seq<Option<(Move, i32, u32)>>) -> Option<SearchResult> {
    match best_of(results) {
        Some((m, s, d)) => Some(SearchResult { best_move: m, score: s, depth: d }),
        None => if legal_moves(cells, turn).len() > 0 {
            Some(SearchResult { best_move: legal_moves(cells, turn)[0], score: 0, depth: 0 })
        } else {
            None
        },
    }
}

/// Combine the results that the search threads returned, in thread order.
pub fn select_result(board: &Board, results: &Vec<Option<(Move, i32, u32)>>) -> (r: Option<SearchResult>)
    ensures
        r == spec_select_result(board.cells(), board.turn, results@),
{
    let mut kept: Option<(Move, i32, u32)> = None;
    let n = results.len();
    let mut i: usize = 0;
    proof {
        assert(results@.take(0) =~= Seq::<Option<(Move, i32, u32)>>::empty());
    }
    while i < n
        invariant
            n == results@.len(),
            0 <= i <= n,
            kept == best_of(results@.take(i as int)),
        decreases n - i,
    {
        proof {
            assert(results@.take(i + 1).drop_last() =~= results@.take(i as int));
            assert(results@.take(i + 1).last() == results@[i as int]);
        }
        match results[i] {
            Some(r) => {
                match kept {
                    None => {
                        kept = Some(r);
                    },
                    Some(k) => {
                        if r.2 > k.2 {
                            kept = Some(r);
                        }
                    },
                }
            },
            None => {},
        }
        i += 1;
    }
    proof {
        assert(results@.take(n as int) =~= results@);
    }
    match kept {
        Some((m, s, d)) => Some(SearchResult { best_move: m, score: s, depth: d }),
        None => {
            let moves = board.generate_legal_moves(board.turn);
            if moves.len() > 0 {
                Some(SearchResult { best_move: moves[0], score: 0, depth: 0 })
            } else {
                None
            }
        },
    }
}

// ---------------------------------------------------------------------------
// The search
// ---------------------------------------------------------------------------

/// A static evaluation of positions, from White's side, in centipawns.
pub trait Evaluator {
    fn evaluate(&self, board: &Board) -> i32;
}

/// Static evaluations are kept within the band of scores `[-INF, INF]` that
/// the search's windows span: an evaluation beyond it is taken as `INF` (or
/// its negation). Within the band evaluations are used as they are, however
/// large.
pub const EVAL_LIMIT: i32 = 999_999;

/// The deepest iteration: iterative deepening runs until the stop flag
/// rises or a mate is found, and only this bound, far beyond any depth a
/// timed search reaches, keeps the history bonus (the depth squared) within
/// an `i32`.
pub const MAX_DEPTH: u32 = 46_000;

/// `v` kept within `[-EVAL_LIMIT, EVAL_LIMIT]`.
pub open spec fn clamp_eval(v: int) -> int {
    if v > EVAL_LIMIT {
        EVAL_LIMIT as int
    } else if v < -EVAL_LIMIT {
        -EVAL_LIMIT
    } else {
        v
    }
}

/// The bound a node's score gives within the window (`alpha`, `beta`): a
/// lower bound when it reaches `beta`, exact when it lies inside, an upper
/// bound when it does not rise above `alpha`.
pub open spec fn flag_for(score: int, alpha: int, beta: int) -> TTFlag {
    if score >= beta {
        TTFlag::LowerBound
    } else if score > alpha {
        TTFlag::Exact
    } else {
        TTFlag::UpperBound
    }
}

/// The entry a node searched to `depth` (extension included) at `ply` stores
/// for its score within (`alpha`, `beta`): the score relative to the root,
/// the depth, the bound, and a best move that is legal when there is one.
pub open spec fn node_entry_ok(e: TTEntry, cells: Seq<Cell>, turn: Color, score: int, ply: int, depth: int, alpha: int, beta: int) -> bool {
    &&& e.score == spec_tt_store_score(score, ply)
    &&& e.depth == depth
    &&& e.flag == flag_for(score, alpha, beta)
    &&& e.best_move matches Some(m) ==> legal_moves(cells, turn).contains(m)
}

/// Scores within `[-INF, INF]`.
pub open spec fn in_band(s: int) -> bool {
    -INF <= s <= INF
}

/// Per-thread search state: killers and history, the shared table and stop
/// flag, the evaluation in use, and a node counter.
pub struct SearchThread<E: Evaluator> {
    table: SharedTable,
    stop: StopFlag,
    eval: E,
    tables: MoveHeuristics,
    nodes: u64,
    last: Ghost<SearchCall>,
    node_log: Ghost<NodeLog>,
    roots: Ghost<Seq<(u32, i32, Move)>>,
    root_log: Ghost<RootLog>,
    q_last: Ghost<SearchCall>,
    q_log: Ghost<Seq<SearchCall>>,
}

impl<E: Evaluator> SearchThread<E> {
    /// The thread's move-ordering tables are in range.
    pub closed spec fn wf(&self) -> bool {
        self.tables.wf()
    }

    /// How many times this thread has read the stop flag raised.
    pub closed spec fn stops_seen(&self) -> nat {
        self.stop.seen()
    }

    /// How many nodes this thread has answered with a score probed from the
    /// table.
    pub closed spec fn table_answers(&self) -> nat {
        self.table.answers()
    }

    /// The table probes this thread has made: the key looked up and the
    /// entry found.
    pub closed spec fn table_probes(&self) -> Seq<(u64, Option<TTEntry>)> {
        self.table.probes()
    }

    /// How many times this thread raised the stop flag.
    pub closed spec fn stop_raises(&self) -> nat {
        self.stop.raised()
    }

    /// The last alpha-beta search this thread finished.
    pub closed spec fn last_search(&self) -> SearchCall {
        self.last@
    }

    /// What the last alpha-beta node this thread finished did.
    pub closed spec fn node_log(&self) -> NodeLog {
        self.node_log@
    }

    /// The last quiescence search this thread finished.
    pub closed spec fn q_last(&self) -> SearchCall {
        self.q_last@
    }

    /// The searches of the positions after captures that the last
    /// quiescence node this thread finished made.
    pub closed spec fn q_log(&self) -> Seq<SearchCall> {
        self.q_log@
    }

    /// What the last root search this thread finished did.
    pub closed spec fn root_log(&self) -> RootLog {
        self.root_log@
    }

    /// The root searches this thread finished, in order: the depth, and the
    /// score and move found.
    pub closed spec fn root_searches(&self) -> Seq<(u32, i32, Move)> {
        self.roots@
    }

    /// The entries this thread has stored in the table, with their keys.
    pub closed spec fn table_stores(&self) -> Seq<(u64, TTEntry)> {
        self.table.stores()
    }

    /// The shared table.
    pub closed spec fn shared_table(&self) -> Arc<TranspositionTable> {
        self.table.table()
    }

    /// The shared stop flag.
    pub closed spec fn stop_flag(&self) -> Arc<AtomicBool> {
        self.stop.flag()
    }

    /// The evaluation in use.
    pub closed spec fn evaluator(&self) -> E {
        self.eval
    }

    /// The ordering keys of `s`, as the search sorts them.
    pub closed spec fn order_keys(&self, cells: Seq<Cell>, s: Seq<Move>, ply: int, hash_move: Option<Move>) -> Seq<Keyed> {
        s.map_values(|m: Move| (self.tables.order_score(cells, m, ply, hash_move) as i32, m))
    }

    /// A thread searching with the given table, stop flag and evaluation,
    /// with empty killers and history.
    pub fn new(tt: Arc<TranspositionTable>, stop: Arc<AtomicBool>, eval: E) -> (t: Self)
        ensures
            t.wf(),
            t.shared_table() == tt,
            t.stop_flag() == stop,
            t.evaluator() == eval,
            t.stops_seen() == 0,
            t.stop_raises() == 0,
            t.table_answers() == 0,
            t.table_probes().len() == 0,
            t.table_stores().len() == 0,
            t.root_searches().len() == 0,
    {
        SearchThread {
            table: SharedTable::new(tt),
            stop: StopFlag::new(stop),
            eval,
            tables: MoveHeuristics::new(),
            nodes: 0,
            last: Ghost(
                SearchCall {
                    cells: Seq::empty(),
                    turn: Color::White,
                    depth: 0,
                    alpha: 0,
                    beta: 0,
                    ply: 0,
                    score: 0,
                },
            ),
            node_log: Ghost(NodeLog { null_search: None, moves: Seq::empty(), steps: Seq::empty() }),
            roots: Ghost(Seq::empty()),
            root_log: Ghost(RootLog { moves: Seq::empty(), steps: Seq::empty() }),
            q_last: Ghost(
                SearchCall {
                    cells: Seq::empty(),
                    turn: Color::White,
                    depth: 0,
                    alpha: 0,
                    beta: 0,
                    ply: 0,
                    score: 0,
                },
            ),
            q_log: Ghost(Seq::empty()),
        }
    }

    /// Whether the stop flag is raised; a raised flag is counted as seen.
    fn stopped(&mut self) -> (r: bool)
        ensures
            final(self).stops_seen() == old(self).stops_seen() + if r {
                1nat
            } else {
                0nat
            },
            final(self).table_answers() == old(self).table_answers(),
            final(self).table_stores() == old(self).table_stores(),
            final(self).table == old(self).table,
            final(self).tables == old(self).tables,
            final(self).eval == old(self).eval,
            final(self).nodes == old(self).nodes,
            final(self).roots == old(self).roots,
            final(self).stop_raises() == old(self).stop_raises(),
    {
        self.stop.stopped()
    }

    /// Raise the stop flag for every thread.
    fn request_stop(&mut self)
        ensures
            final(self).stop_raises() == old(self).stop_raises() + 1,
            final(self).stops_seen() == old(self).stops_seen(),
            final(self).roots == old(self).roots,
            final(self).tables == old(self).tables,
    {
        self.stop.raise();
    }

    /// `s` is the evaluation of `board` by the thread's evaluator, kept within
    /// `EVAL_LIMIT` and taken from the side to move's point of view.
    pub closed spec fn is_evaluation(&self, board: &Board, s: int) -> bool {
        exists|v: i32|
            call_ensures(E::evaluate, (&self.eval, board), v) && s == clamp_eval(v as int)
                * board.turn.spec_multiplier()
    }

    /// The evaluation from the side to move's point of view, kept within
    /// `EVAL_LIMIT`.
    fn eval_relative(&self, board: &Board) -> (s: i32)
        ensures
            -EVAL_LIMIT <= s <= EVAL_LIMIT,
            self.is_evaluation(board, s as int),
    {
        let evaluate = E::evaluate;
        let v = evaluate(&self.eval, board);
        let clamped = if v > EVAL_LIMIT {
            EVAL_LIMIT
        } else if v < -EVAL_LIMIT {
            -EVAL_LIMIT
        } else {
            v
        };
        let s = clamped * board.turn.multiplier();
        proof {
            assert(call_ensures(E::evaluate, (&self.eval, board), v));
            assert(s == clamp_eval(v as int) * board.turn.spec_multiplier());
        }
        s
    }

    /// Count one more node searched (wrapping around at `u64::MAX`).
    fn count_node(&mut self)
        ensures
            final(self).nodes == if old(self).nodes == u64::MAX {
                0
            } else {
                old(self).nodes + 1
            },
            final(self).tables == old(self).tables,
            final(self).table == old(self).table,
            final(self).stop == old(self).stop,
            final(self).eval == old(self).eval,
            final(self).stops_seen() == old(self).stops_seen(),
            final(self).table_answers() == old(self).table_answers(),
            final(self).table_stores() == old(self).table_stores(),
            final(self).roots == old(self).roots,
    {
        self.nodes = self.nodes.wrapping_add(1);
    }

    /// Order `moves` for searching: highest ordering key first, moves with
    /// equal keys in generation order.
    fn score_moves(&self, moves: &mut Vec<Move>, board: &Board, ply: usize, hash_move: Option<Move>)
        requires
            self.wf(),
            on_board_moves(old(moves)@),
        ensures
            final(moves)@ == moves_of(sort_desc(self.order_keys(board.cells(), old(moves)@, ply as int, hash_move))),
    {
        let ghost keys = self.order_keys(board.cells(), moves@, ply as int, hash_move);
        let hm: Option<&Move> = match &hash_move {
            Some(h) => Some(h),
            None => None,
        };
        let mut keyed: Vec<Keyed> = Vec::new();
        let n = moves.len();
        let mut i: usize = 0;
        while i < n
            invariant
                n == moves@.len(),
                0 <= i <= n,
                self.wf(),
                on_board_moves(moves@),
                keys == self.order_keys(board.cells(), moves@, ply as int, hash_move),
                hm == match hash_move {
                    Some(h) => Some(&h),
                    None => None::<&Move>,
                },
                keyed@ == keys.take(i as int),
            decreases n - i,
        {
            let mv = moves[i];
            let s = self.tables.move_score(&mv, board, ply, hm);
            keyed.push((s, mv));
            proof {
                assert(keyed@ =~= keys.take(i + 1));
            }
            i += 1;
        }
        proof {
            assert(keys.take(n as int) =~= keys);
        }
        let out = sorted_moves(&keyed);
        *moves = out;
    }

    /// Order captures by ascending exchange estimate, ties in generation
    /// order; the quiescence search walks them from the back.
    fn score_captures(&self, captures: &mut Vec<Move>, board: &Board)
        requires
            on_board_moves(old(captures)@),
        ensures
            final(captures)@ == moves_of(sort_desc(capture_keys(board.cells(), old(captures)@))),
    {
        let ghost keys = capture_keys(board.cells(), captures@);
        let mut keyed: Vec<Keyed> = Vec::new();
        let n = captures.len();
        let mut i: usize = 0;
        while i < n
            invariant
                n == captures@.len(),
                0 <= i <= n,
                on_board_moves(captures@),
                keys == capture_keys(board.cells(), captures@),
                keyed@ == keys.take(i as int),
            decreases n - i,
        {
            let mv = captures[i];
            let s = capture_score(board, &mv);
            keyed.push((-s, mv));
            proof {
                assert(keyed@ =~= keys.take(i + 1));
            }
            i += 1;
        }
        proof {
            assert(keys.take(n as int) =~= keys);
        }
        let out = sorted_moves(&keyed);
        *captures = out;
    }

    /// What a quiescence search of `board` at `ply` within (`alpha`, `beta`)
    /// guarantees, from the thread before (`pre`) and after (`post`) it, for
    /// its `score`: the score is in the band, the thread's state stays in
    /// range, and the table and root records are untouched. At the ply limit
    /// the score is the evaluation. Below it, unless the stop flag was seen,
    /// the score is fail-hard: `beta` when the evaluation (stand-pat) reaches
    /// `beta`; otherwise between the stand-pat and `beta`, and either `beta`
    /// or at least the negated score of the search of the position after
    /// every legal capture, except captures skipped because the stand-pat plus
    /// the captured piece's value plus 200 does not reach the larger of
    /// `alpha` and the score. The searches of the positions after captures are
    /// those in `post.q_log()`.
    spec fn q_ok(pre: Self, post: Self, board: Board, alpha: i32, beta: i32, ply: usize, score: i32) -> bool {
        let cells = board.cells();
        let turn = board.turn;
        let log = post.q_log();
        &&& post.wf()
        &&& in_band(score as int)
        &&& post.eval == pre.eval
        &&& post.stops_seen() >= pre.stops_seen()
        &&& post.table_answers() >= pre.table_answers()
        &&& post.table_stores() == pre.table_stores()
        &&& post.table_probes() == pre.table_probes()
        &&& post.roots == pre.roots
        &&& post.stop_raises() == pre.stop_raises()
        &&& ply >= MAX_PLY ==> pre.is_evaluation(&board, score as int) || post.stops_seen() > pre.stops_seen()
        &&& ply < MAX_PLY ==> post.stops_seen() > pre.stops_seen() || exists|sp: int|
            #![trigger pre.is_evaluation(&board, sp)]
            pre.is_evaluation(&board, sp) && if sp >= beta {
                score == beta
            } else {
                &&& sp <= score <= beta
                &&& score == beta || forall|c: Move|
                    #[trigger] legal_captures(cells, turn).contains(c) ==> sp + value_on(cells, c.to as int) + 200
                        <= (if alpha >= score {
                        alpha as int
                    } else {
                        score as int
                    }) || exists|j: int|
                        0 <= j < log.len() && (#[trigger] log[j]).cells == cells_after_move(
                            cells,
                            c.from as int,
                            c.to as int,
                        ) && log[j].turn == turn.spec_opposite() && log[j].ply == ply + 1 && score >= -log[j].score
            }
    }

    /// Quiescence search: stand pat, then try captures, best exchange first,
    /// skipping those that cannot lift the score to `alpha`, as `q_ok` says;
    /// the search is recorded as the thread's last quiescence search.
    fn quiescence(&mut self, board: &Board, alpha: i32, beta: i32, ply: usize) -> (score: i32)
        requires
            old(self).wf(),
            -INF <= alpha < beta <= INF,
            ply <= MAX_PLY,
        ensures
            Self::q_ok(*old(self), *final(self), *board, alpha, beta, ply, score),
            final(self).q_last() == (SearchCall {
                cells: board.cells(),
                turn: board.turn,
                depth: 0,
                alpha,
                beta,
                ply,
                score,
            }),
        decreases MAX_PLY - ply, 1int,
    {
        let score = self.q_node(board, alpha, beta, ply);
        let ghost mid = *self;
        self.q_last = Ghost(SearchCall { cells: board.cells(), turn: board.turn, depth: 0, alpha, beta, ply, score });
        proof {
            assert(self.q_log() == mid.q_log());
            assert(self.wf() == mid.wf());
            assert(self.stops_seen() == mid.stops_seen());
            assert(self.table_answers() == mid.table_answers());
            assert(self.table_stores() == mid.table_stores());
            assert(self.table_probes() == mid.table_probes());
            assert(self.stop_raises() == mid.stop_raises());
            assert(Self::q_ok(*old(self), mid, *board, alpha, beta, ply, score));
        }
        score
    }

    /// The body of a quiescence node.
    #[verifier::rlimit(100)]
    fn q_node(&mut self, board: &Board, alpha: i32, beta: i32, ply: usize) -> (score: i32)
        requires
            old(self).wf(),
            -INF <= alpha < beta <= INF,
            ply <= MAX_PLY,
        ensures
            Self::q_ok(*old(self), *final(self), *board, alpha, beta, ply, score),
        decreases MAX_PLY - ply, 0int,
    {
        self.count_node();
        if self.nodes & 1023 == 0 && self.stopped() {
            return self.eval_relative(board);
        }
        if ply >= MAX_PLY {
            return self.eval_relative(board);
        }
        // Standing pat
        let stand_pat = self.eval_relative(board);
        proof {
            assert(self.eval == old(self).eval);
            assert(old(self).is_evaluation(board, stand_pat as int));
        }
        if stand_pat >= beta {
            return beta;
        }
        let ghost alpha0 = alpha;
        let mut alpha = alpha;
        if stand_pat > alpha {
            alpha = stand_pat;
        }
        let mut captures = board.generate_legal_captures(board.turn);
        let ghost legal = captures@;
        proof {
            lemma_legal_lists(board.cells(), board.turn);
            let keys = capture_keys(board.cells(), captures@);
            assert forall|k: int| 0 <= k < keys.len() implies (#[trigger] keys[k]).1 == captures@[k] by {}
            lemma_sorted_on_board(keys, captures@);
            lemma_sorted_covers(keys, captures@);
        }
        self.score_captures(&mut captures, board);
        let ghost cells = board.cells();
        let ghost turn = board.turn;
        let ghost mut log: Seq<SearchCall> = Seq::empty();
        let mut best_score = stand_pat;
        let n = captures.len();
        let mut i = n;
        while i > 0
            invariant
                i <= n,
                n == captures@.len(),
                on_board_moves(captures@),
                forall|c: Move| #[trigger] legal.contains(c) ==> captures@.contains(c),
                legal == legal_captures(board.cells(), board.turn),
                cells == board.cells(),
                turn == board.turn,
                -INF <= alpha < beta <= INF,
                -EVAL_LIMIT <= stand_pat <= EVAL_LIMIT,
                stand_pat < beta,
                stand_pat <= best_score < beta,
                alpha == (if alpha0 >= best_score {
                    alpha0 as int
                } else {
                    best_score as int
                }),
                in_band(best_score as int),
                self.wf(),
                ply < MAX_PLY,
                self.eval == old(self).eval,
                self.stops_seen() >= old(self).stops_seen(),
                self.table_answers() >= old(self).table_answers(),
                self.table_stores() == old(self).table_stores(),
                self.table_probes() == old(self).table_probes(),
                self.roots == old(self).roots,
                self.stop_raises() == old(self).stop_raises(),
                old(self).is_evaluation(board, stand_pat as int),
                forall|k: int|
                    i <= k < n ==> stand_pat + value_on(cells, (#[trigger] captures@[k]).to as int) + 200 <= alpha
                        || exists|j: int|
                        0 <= j < log.len() && (#[trigger] log[j]).cells == cells_after_move(
                            cells,
                            captures@[k].from as int,
                            captures@[k].to as int,
                        ) && log[j].turn == turn.spec_opposite() && log[j].ply == ply + 1 && best_score
                            >= -log[j].score,
            decreases i,
        {
            i -= 1;
            let mv = captures[i];
            // Delta pruning: skip captures that cannot raise alpha.
            let victim_value = value_at(board, mv.to);
            if stand_pat + victim_value + 200 <= alpha {
                continue;
            }
            let child = board.make_move(&mv);
            let ghost old_log = log;
            let score = -self.quiescence(&child, -beta, -alpha, ply + 1);
            proof {
                log = log.push(self.q_last@);
                assert(log[log.len() - 1] == self.q_last@);
                assert forall|j: int| 0 <= j < old_log.len() implies log[j] == old_log[j] by {}
            }
            if score > best_score {
                best_score = score;
            }
            if score >= beta {
                return beta;
            }
            if score > alpha {
                alpha = score;
            }
        }
        self.q_log = Ghost(log);
        proof {
            assert forall|c: Move| #[trigger] legal_captures(cells, turn).contains(c) implies stand_pat + value_on(
                cells,
                c.to as int,
            ) + 200 <= (if alpha0 >= best_score {
                alpha0 as int
            } else {
                best_score as int
            }) || exists|j: int|
                0 <= j < log.len() && (#[trigger] log[j]).cells == cells_after_move(
                    cells,
                    c.from as int,
                    c.to as int,
                ) && log[j].turn == turn.spec_opposite() && log[j].ply == ply + 1 && best_score >= -log[j].score by {
                assert(legal.contains(c));
                let k = choose|k: int| 0 <= k < n && captures@[k] == c;
                assert(0 <= k < n);
            }
            assert(self.q_log() == log);
        }
        best_score
    }

    /// What a search of `board` to `depth` plies from `ply` within
    /// (`alpha`, `beta`) guarantees, from the thread before (`pre`) and after
    /// (`post`) it, for its `score`:
    /// - the score is in the band; the thread's state stays in range; its
    ///   counters, probes and stores only grow;
    /// - unless the stop flag was seen, the node probed the table under
    ///   `board.zobrist` first, and when that entry settles the node the
    ///   score is the table's; otherwise, with moves to search, the score is
    ///   the `node_value` of the node's recorded searches;
    /// - at the ply limit the score is the evaluation; a checkmated side
    ///   scores `-(MATE_SCORE - ply)` and a stalemated one 0 (or `beta` after
    ///   a null-move cut); at depth 0 out of check the quiescence bounds hold;
    ///   when the node searched its moves it stored its result under its key.
    ///   These hold unless the flag was seen or the table answered.
    spec fn node_ok(pre: Self, post: Self, board: Board, depth: u32, alpha: i32, beta: i32, ply: usize, score: i32) -> bool {
        let cells = board.cells();
        let turn = board.turn;
        let chk = in_check(cells, turn);
        let ext: int = if chk {
            1
        } else {
            0
        };
        let legal = legal_moves(cells, turn);
        let stopped = post.stops_seen() > pre.stops_seen();
        let escaped = stopped || post.table_answers() > pre.table_answers();
        let k = pre.table_probes().len() as int;
        &&& post.wf()
        &&& in_band(score as int)
        &&& post.eval == pre.eval
        &&& post.stops_seen() >= pre.stops_seen()
        &&& post.table_answers() >= pre.table_answers()
        &&& post.table_stores().len() >= pre.table_stores().len()
        &&& prefix_of(pre.table_probes(), post.table_probes())
        &&& post.roots == pre.roots
        &&& post.stop_raises() == pre.stop_raises()
        &&& ply < MAX_PLY && !stopped ==> {
            &&& post.table_probes().len() > k
            &&& post.table_probes()[k].0 == board.zobrist
            &&& match spec_table_cutoff(post.table_probes()[k].1, depth, alpha, beta, ply).0 {
                Some(s) => score == s,
                None => legal.len() > 0 && depth + ext >= 1 ==> node_value(
                    post.node_log(),
                    legal,
                    cells,
                    turn,
                    ply as int,
                    depth as int,
                    ext,
                    chk,
                    alpha as int,
                    beta as int,
                    score as int,
                ) && forall|j: int|
                    0 <= j < post.node_log().steps.len() ==> (#[trigger] post.node_log().steps[j] matches MoveStep::Skipped(
                        sp,
                    ) ==> pre.is_evaluation(&board, sp as int)),
            }
        }
        &&& ply >= MAX_PLY ==> pre.is_evaluation(&board, score as int) || stopped
        &&& ply < MAX_PLY && legal.len() == 0 && chk ==> score == -(MATE_SCORE - ply) || escaped
        &&& ply < MAX_PLY && legal.len() == 0 && !chk && depth >= 1 ==> score == 0 || (score == beta && depth >= 3)
            || escaped
        &&& ply < MAX_PLY && depth == 0 && !chk ==> escaped || exists|sp: int|
            #![trigger pre.is_evaluation(&board, sp)]
            pre.is_evaluation(&board, sp) && if sp >= beta {
                score == beta
            } else {
                sp <= score <= beta
            }
        &&& ply < MAX_PLY && legal.len() > 0 && depth + ext >= 1 ==> escaped || (score == beta && depth >= 3
            && !chk) || (post.table_stores().len() > 0 && post.table_stores().last().0 == board.zobrist
            && node_entry_ok(
            post.table_stores().last().1,
            cells,
            turn,
            score as int,
            ply as int,
            depth + ext,
            alpha as int,
            beta as int,
        ))
    }

    /// Alpha-beta search of `board` to `depth` plies from `ply`, within the
    /// window (`alpha`, `beta`), from the side to move's point of view, as
    /// `node_ok` states; the search is recorded as the thread's last search.
    fn alpha_beta(&mut self, board: &Board, depth: u32, alpha: i32, beta: i32, ply: usize) -> (score: i32)
        requires
            old(self).wf(),
            -INF <= alpha < beta <= INF,
            ply <= MAX_PLY,
            depth <= MAX_DEPTH + 2,
        ensures
            Self::node_ok(*old(self), *final(self), *board, depth, alpha, beta, ply, score),
            final(self).last_search() == (SearchCall {
                cells: board.cells(),
                turn: board.turn,
                depth,
                alpha,
                beta,
                ply,
                score,
            }),
        decreases MAX_PLY - ply, 2int,
    {
        let score = self.node(board, depth, alpha, beta, ply);
        self.last = Ghost(
            SearchCall { cells: board.cells(), turn: board.turn, depth, alpha, beta, ply, score },
        );
        score
    }

    /// Search the position `child` after the node's move `mv`, the move
    /// after `searched` others, as `searched_score` says: with the full window
    /// for the first move, otherwise with a zero window at `alpha`, again
    /// unreduced when a reduced move beats `alpha`, and with the full window
    /// when the score lands inside it. Returns the move's score and the
    /// searches made.
    fn search_move(
        &mut self,
        board: &Board,
        child: &Board,
        mv: Move,
        depth: u32,
        ext: u32,
        in_check: bool,
        searched: u32,
        alpha: i32,
        beta: i32,
        ply: usize,
    ) -> (r: (i32, Ghost<Seq<SearchCall>>))
        requires
            old(self).wf(),
            -INF <= alpha < beta <= INF,
            ply < MAX_PLY,
            depth <= MAX_DEPTH + 2,
            ext <= 1,
            depth + ext >= 1,
            child.cells() == cells_after_move(board.cells(), mv.from as int, mv.to as int),
            child.turn == board.turn.spec_opposite(),
        ensures
            final(self).wf(),
            in_band(r.0 as int),
            final(self).eval == old(self).eval,
            final(self).stops_seen() >= old(self).stops_seen(),
            final(self).table_answers() >= old(self).table_answers(),
            final(self).table_stores().len() >= old(self).table_stores().len(),
            prefix_of(old(self).table_probes(), final(self).table_probes()),
            final(self).roots == old(self).roots,
            final(self).stop_raises() == old(self).stop_raises(),
            searched_score(
                r.1@,
                board.cells(),
                board.turn,
                mv,
                ply as int,
                depth as int,
                ext as int,
                in_check,
                searched as int,
                alpha as int,
                beta as int,
            ) == Some(r.0 as int),
        decreases MAX_PLY - ply, 0int,
    {
        // Late move reductions
        let mut reduction: u32 = 0;
        if searched >= 4 && depth >= 3 && !in_check && !mv.capture {
            reduction = 1 + (searched - 4) / 5;
            if reduction > depth - 1 {
                reduction = depth - 1;
            }
        }
        proof {
            assert(reduction == spec_reduction(searched as int, depth as int, in_check, mv));
        }
        let search_depth = (depth + ext).saturating_sub(1 + reduction);
        let ghost mut calls: Seq<SearchCall> = Seq::empty();
        let ghost p0 = self.table_probes();
        let mut score: i32;
        if searched == 0 {
            // First move: full window
            score = -self.alpha_beta(child, search_depth, -beta, -alpha, ply + 1);
            proof {
                calls = calls.push(self.last@);
            }
        } else {
            // Zero-window search
            score = -self.alpha_beta(child, search_depth, -alpha - 1, -alpha, ply + 1);
            proof {
                calls = calls.push(self.last@);
            }
            let ghost p1 = self.table_probes();
            // A reduced move that fails high is searched again unreduced
            if score > alpha && reduction > 0 {
                score = -self.alpha_beta(child, search_depth + reduction, -alpha - 1, -alpha, ply + 1);
                proof {
                    calls = calls.push(self.last@);
                    lemma_prefix_trans(p0, p1, self.table_probes());
                }
            }
            let ghost p2 = self.table_probes();
            // A possible principal variation gets the full window
            if score > alpha && score < beta {
                score = -self.alpha_beta(child, depth + ext - 1, -beta, -alpha, ply + 1);
                proof {
                    calls = calls.push(self.last@);
                    lemma_prefix_trans(p0, p2, self.table_probes());
                }
            }
        }
        (score, Ghost(calls))
    }

    /// The body of an alpha-beta node: probe the table, try a null move,
    /// extend checks, then search the moves in order with principal-variation
    /// windows, futility pruning and late-move reductions, and store the
    /// result. The searches made are recorded as the node's log.
    #[verifier::rlimit(100)]
    fn node(&mut self, board: &Board, depth: u32, alpha: i32, beta: i32, ply: usize) -> (score: i32)
        requires
            old(self).wf(),
            -INF <= alpha < beta <= INF,
            ply <= MAX_PLY,
            depth <= MAX_DEPTH + 2,
        ensures
            Self::node_ok(*old(self), *final(self), *board, depth, alpha, beta, ply, score),
        decreases MAX_PLY - ply, 1int,
    {
        proof {
            lemma_prefix_refl(old(self).table_probes());
        }
        self.count_node();
        // Check the stop flag now and then.
        if self.nodes & 2047 == 0 && self.stopped() {
            return 0;
        }
        if ply >= MAX_PLY {
            return self.eval_relative(board);
        }
        // Probe the table. What it holds was written by some thread; a
        // score outside the band of real scores is not relied on.
        let key = zobrist_key(board);
        let ghost k0 = self.table_probes().len();
        let (cut, hash_move) = self.table.probe(key, depth, alpha, beta, ply);
        proof {
            assert(self.table_probes()[k0 as int] == self.table_probes().last());
            assert(prefix_of(old(self).table_probes(), self.table_probes()));
        }
        let ghost probes1 = self.table_probes();
        match cut {
            Some(score) => {
                return score;
            },
            None => {},
        }
        let in_check = board.is_in_check(board.turn);
        let ghost mut null_log: Option<SearchCall> = None;
        // Null-move pruning
        if !in_check && depth >= 3 {
            let r = null_move_r(depth);
            let null_depth = depth.saturating_sub(1 + r);
            if null_depth > 0 {
                let null_board = board.null_move();
                let s = self.alpha_beta(&null_board, null_depth, -beta, -beta + 1, ply + 1);
                proof {
                    null_log = Some(self.last@);
                    lemma_prefix_trans(old(self).table_probes(), probes1, self.table_probes());
                }
                if -s >= beta {
                    self.node_log = Ghost(NodeLog { null_search: null_log, moves: Seq::empty(), steps: Seq::empty() });
                    return beta;
                }
            }
        }
        let ghost probes2 = self.table_probes();
        proof {
            lemma_prefix_refl(probes2);
        }
        // Check extension
        let ext: u32 = if in_check {
            1
        } else {
            0
        };
        if depth + ext == 0 {
            let ghost pre = *self;
            let q = self.quiescence(board, alpha, beta, ply);
            proof {
                assert(pre.eval == old(self).eval);
                assert forall|sp: int| #[trigger] pre.is_evaluation(board, sp) implies old(self).is_evaluation(
                    board,
                    sp,
                ) by {}
            }
            return q;
        }
        let mut moves = board.generate_legal_moves(board.turn);
        if moves.len() == 0 {
            return if in_check {
                -(MATE_SCORE - ply as i32)
            } else {
                0
            };
        }
        proof {
            lemma_legal_lists(board.cells(), board.turn);
            let keys = self.order_keys(board.cells(), moves@, ply as int, hash_move);
            assert forall|k: int| 0 <= k < keys.len() implies (#[trigger] keys[k]).1 == moves@[k] by {}
            lemma_sorted_on_board(keys, moves@);
        }
        let ghost legal = moves@;
        proof {
            let keys = self.order_keys(board.cells(), moves@, ply as int, hash_move);
            lemma_sorted_moves(keys, moves@);
        }
        self.score_moves(&mut moves, board, ply, hash_move);
        let mut best_score: i32 = -INF;
        let mut best_move: Option<Move> = None;
        let mut flag = TTFlag::UpperBound;
        let mut moves_searched: u32 = 0;
        let ghost alpha0 = alpha;
        let ghost cells = board.cells();
        let ghost turn = board.turn;
        let ghost mut steps: Seq<MoveStep> = Seq::empty();
        let mut alpha = alpha;
        let n = moves.len();
        let mut i: usize = 0;
        while i < n
            invariant_except_break
                moves_searched <= i,
                best_score < beta,
                alpha == if best_score > alpha0 {
                    best_score as int
                } else {
                    alpha0 as int
                },
                flag == if best_score > alpha0 {
                    TTFlag::Exact
                } else {
                    TTFlag::UpperBound
                },
                self.stops_seen() == old(self).stops_seen() ==> steps.len() == i && run(
                    steps,
                    moves@,
                    cells,
                    turn,
                    ply as int,
                    depth as int,
                    ext as int,
                    in_check,
                    alpha0 as int,
                    beta as int,
                    steps.len(),
                ) == Some((alpha as int, best_score as int, moves_searched as int, false)),
            invariant
                n == moves@.len(),
                n <= 4096,
                0 <= i <= n,
                on_board_moves(moves@),
                -INF <= alpha < beta <= INF,
                in_band(best_score as int),
                self.wf(),
                ply < MAX_PLY,
                depth <= MAX_DEPTH + 2,
                ext <= 1,
                depth + ext >= 1,
                in_check ==> ext == 1,
                !in_check ==> ext == 0,
                in_check == crate::board::in_check(cells, turn),
                cells == board.cells(),
                turn == board.turn,
                self.eval == old(self).eval,
                self.stops_seen() >= old(self).stops_seen(),
                self.table_answers() >= old(self).table_answers(),
                self.table_stores().len() >= old(self).table_stores().len(),
                prefix_of(probes2, self.table_probes()),
                self.roots == old(self).roots,
                self.stop_raises() == old(self).stop_raises(),
                legal == legal_moves(board.cells(), board.turn),
                forall|k: int| 0 <= k < n ==> legal.contains(#[trigger] moves@[k]),
                -INF <= alpha0 < beta,
                best_move matches Some(m) ==> legal.contains(m),
                forall|j: int|
                    0 <= j < steps.len() ==> (#[trigger] steps[j] matches MoveStep::Skipped(sp)
                        ==> old(self).is_evaluation(board, sp as int)),
            ensures
                in_band(best_score as int),
                self.wf(),
                self.eval == old(self).eval,
                self.stops_seen() >= old(self).stops_seen(),
                self.table_answers() >= old(self).table_answers(),
                self.table_stores().len() >= old(self).table_stores().len(),
                prefix_of(probes2, self.table_probes()),
                self.roots == old(self).roots,
                self.stop_raises() == old(self).stop_raises(),
                flag == flag_for(best_score as int, alpha0 as int, beta as int),
                best_move matches Some(m) ==> legal.contains(m),
                forall|j: int|
                    0 <= j < steps.len() ==> (#[trigger] steps[j] matches MoveStep::Skipped(sp)
                        ==> old(self).is_evaluation(board, sp as int)),
                self.stops_seen() == old(self).stops_seen() ==> (run(
                    steps,
                    moves@,
                    cells,
                    turn,
                    ply as int,
                    depth as int,
                    ext as int,
                    in_check,
                    alpha0 as int,
                    beta as int,
                    steps.len(),
                ) matches Some((_, b, _, c)) && b == best_score && (c || steps.len() == n)),
            decreases n - i,
        {
            if self.stopped() {
                break;
            }
            let mv = moves[i];
            let child = board.make_move(&mv);
            let ghost probes_before_move = self.table_probes();
            // Futility pruning of quiet moves near the leaves
            if depth + ext <= 3 && !in_check && !mv.capture && moves_searched > 0 {
                let stand_pat = self.eval_relative(board);
                if stand_pat + futility_margin(depth + ext) <= alpha {
                    proof {
                        let old_steps = steps;
                        steps = steps.push(MoveStep::Skipped(stand_pat));
                        assert(steps.drop_last() == old_steps);
                        lemma_run_prefix(steps, old_steps, moves@, cells, turn, ply as int, depth as int, ext as int, in_check, alpha0 as int, beta as int);
                    }
                    i += 1;
                    continue;
                }
            }
            let (score, Ghost(calls)) = self.search_move(
                board,
                &child,
                mv,
                depth,
                ext,
                in_check,
                moves_searched,
                alpha,
                beta,
                ply,
            );
            proof {
                lemma_prefix_trans(probes2, probes_before_move, self.table_probes());
                if self.stops_seen() == old(self).stops_seen() {
                    let old_steps = steps;
                    steps = steps.push(MoveStep::Searched(calls));
                    assert(steps.drop_last() == old_steps);
                    lemma_run_prefix(steps, old_steps, moves@, cells, turn, ply as int, depth as int, ext as int, in_check, alpha0 as int, beta as int);
                }
            }
            moves_searched += 1;
            if score > best_score {
                best_score = score;
                best_move = Some(mv);
            }
            if score >= beta {
                flag = TTFlag::LowerBound;
                if !mv.capture {
                    self.tables.store_killer(mv, ply);
                    self.tables.reward_history(mv, depth);
                }
                break;
            }
            if score > alpha {
                alpha = score;
                flag = TTFlag::Exact;
            }
            i += 1;
        }
        self.table.record(
            key,
            TTEntry { score: tt_store_score(best_score, ply), depth: depth + ext, flag, best_move },
        );
        self.node_log = Ghost(NodeLog { null_search: null_log, moves: moves@, steps });
        proof {
            lemma_prefix_trans(old(self).table_probes(), probes2, self.table_probes());
        }
        best_score
    }

    /// Search the root position to `depth` plies (see `root_search`), and
    /// record the depth, score and move among the thread's root searches.
    /// Unless the stop flag was seen, the score and move are the `root_value`
    /// of the root's recorded searches.
    fn search_root(&mut self, board: &Board, depth: u32, color: Color) -> (res: (i32, Move))
        requires
            old(self).wf(),
            1 <= depth <= MAX_DEPTH + 2,
        ensures
            final(self).wf(),
            in_band(res.0 as int),
            answer_ok(board.cells(), color, res.1),
            legal_moves(board.cells(), color).len() == 0 ==> res.0 == 0,
            final(self).eval == old(self).eval,
            final(self).stops_seen() >= old(self).stops_seen(),
            final(self).table_answers() >= old(self).table_answers(),
            final(self).stop_raises() == old(self).stop_raises(),
            final(self).root_searches() == old(self).root_searches().push((depth, res.0, res.1)),
            final(self).stops_seen() == old(self).stops_seen() && legal_moves(board.cells(), color).len() > 0
                ==> root_value(
                final(self).root_log(),
                legal_moves(board.cells(), color),
                board.cells(),
                board.turn,
                depth as int,
                res,
            ),
    {
        let res = self.root_search(board, depth, color);
        self.roots = Ghost(self.roots@.push((depth, res.0, res.1)));
        res
    }

    /// Search the root position to `depth` plies: the first move with the
    /// full window, the rest with zero windows inside an aspiration window
    /// around the best score so far, widened when a move fails low. The
    /// aspiration window never leaves `[-INF, INF]`.
    fn root_search(&mut self, board: &Board, depth: u32, color: Color) -> (res: (i32, Move))
        requires
            old(self).wf(),
            1 <= depth <= MAX_DEPTH + 2,
        ensures
            final(self).wf(),
            in_band(res.0 as int),
            answer_ok(board.cells(), color, res.1),
            legal_moves(board.cells(), color).len() == 0 ==> res.0 == 0,
            final(self).eval == old(self).eval,
            final(self).stops_seen() >= old(self).stops_seen(),
            final(self).table_answers() >= old(self).table_answers(),
            final(self).roots == old(self).roots,
            final(self).stop_raises() == old(self).stop_raises(),
            final(self).stops_seen() == old(self).stops_seen() && legal_moves(board.cells(), color).len() > 0
                ==> root_value(
                final(self).root_log(),
                legal_moves(board.cells(), color),
                board.cells(),
                board.turn,
                depth as int,
                res,
            ),
    {
        let mut moves = board.generate_legal_moves(color);
        if moves.len() == 0 {
            return (0, Move::null());
        }
        let ghost legal = moves@;
        proof {
            lemma_legal_lists(board.cells(), color);
            let keys = self.order_keys(board.cells(), moves@, 0, None);
            assert forall|k: int| 0 <= k < keys.len() implies (#[trigger] keys[k]).1 == moves@[k] by {}
            lemma_sorted_on_board(keys, moves@);
            lemma_sorted_moves(keys, moves@);
        }
        // Move ordering: captures by exchange estimate, quiet moves by history
        self.score_moves(&mut moves, board, 0, None);
        let mut alpha: i32 = -INF;
        let mut beta: i32 = INF;
        let mut delta: i32 = 75;
        // First move with the full window
        let first_mv = moves[0];
        let child = board.make_move(&first_mv);
        let first = self.alpha_beta(&child, depth - 1, -beta, -alpha, 1);
        let ghost cells = board.cells();
        let ghost turn = board.turn;
        let ghost mut steps: Seq<Seq<SearchCall>> = seq![seq![self.last@]];
        let mut best_score: i32 = -first;
        let mut best_move = first_mv;
        if self.stopped() {
            return (best_score, best_move);
        }
        alpha = if best_score - delta < -INF {
            -INF
        } else {
            best_score - delta
        };
        beta = if best_score + delta > INF {
            INF
        } else {
            best_score + delta
        };
        let n = moves.len();
        let mut i: usize = 1;
        proof {
            assert(root_run(steps, moves@, cells, turn, depth as int, 1) == Some(
                (alpha as int, beta as int, delta as int, best_score as int, best_move, false),
            ));
        }
        while i < n
            invariant_except_break
                self.stops_seen() == old(self).stops_seen() ==> steps.len() == i && root_run(
                    steps,
                    moves@,
                    cells,
                    turn,
                    depth as int,
                    steps.len(),
                ) == Some((alpha as int, beta as int, delta as int, best_score as int, best_move, false)),
            invariant
                n == moves@.len(),
                1 <= i <= n,
                on_board_moves(moves@),
                forall|k: int| 0 <= k < n ==> legal.contains(#[trigger] moves@[k]),
                legal == legal_moves(board.cells(), color),
                legal.contains(best_move),
                -INF <= alpha < beta <= INF,
                0 < delta <= 2 * INF,
                in_band(best_score as int),
                self.wf(),
                1 <= depth <= MAX_DEPTH + 2,
                cells == board.cells(),
                turn == board.turn,
                self.eval == old(self).eval,
                self.stops_seen() >= old(self).stops_seen(),
                self.table_answers() >= old(self).table_answers(),
                self.roots == old(self).roots,
                self.stop_raises() == old(self).stop_raises(),
            ensures
                legal.contains(best_move),
                in_band(best_score as int),
                self.wf(),
                self.eval == old(self).eval,
                self.stops_seen() >= old(self).stops_seen(),
                self.table_answers() >= old(self).table_answers(),
                self.roots == old(self).roots,
                self.stop_raises() == old(self).stop_raises(),
                self.stops_seen() == old(self).stops_seen() ==> (root_run(
                    steps,
                    moves@,
                    cells,
                    turn,
                    depth as int,
                    steps.len(),
                ) matches Some((_, _, _, b, m, done)) && b == best_score && m == best_move && (done
                    || steps.len() == n)),
            decreases n - i,
        {
            if self.stopped() {
                break;
            }
            let mv = moves[i];
            let child = board.make_move(&mv);
            let (a, b, d, bs, bm, done, Ghost(calls)) = self.root_move(
                board,
                &child,
                mv,
                depth,
                alpha,
                beta,
                delta,
                best_score,
                best_move,
            );
            proof {
                if self.stops_seen() == old(self).stops_seen() {
                    let before = steps;
                    steps = steps.push(calls);
                    assert forall|j: int| 0 <= j < before.len() implies steps[j] == before[j] by {}
                    lemma_root_run_prefix(steps, before, moves@, cells, turn, depth as int, before.len());
                }
            }
            alpha = a;
            beta = b;
            delta = d;
            best_score = bs;
            best_move = bm;
            if done {
                break;
            }
            i += 1;
        }
        self.root_log = Ghost(RootLog { moves: moves@, steps });
        (best_score, best_move)
    }

    /// One later move of the root search, as `root_step` says: a zero-window
    /// search at `alpha`, the full window when the score lands inside it, the
    /// best move kept; a move reaching `beta` ends the root search; a move
    /// failing low widens the window and is searched again; then the window
    /// is re-centred on the best score. Returns the new window, widening step,
    /// best score and move, whether the root search ends, and the searches
    /// made.
    #[verifier::rlimit(100)]
    fn root_move(
        &mut self,
        board: &Board,
        child: &Board,
        mv: Move,
        depth: u32,
        alpha: i32,
        beta: i32,
        delta: i32,
        best_score: i32,
        best_move: Move,
    ) -> (r: (i32, i32, i32, i32, Move, bool, Ghost<Seq<SearchCall>>))
        requires
            old(self).wf(),
            1 <= depth <= MAX_DEPTH + 2,
            -INF <= alpha < beta <= INF,
            0 < delta <= 2 * INF,
            in_band(best_score as int),
            child.cells() == cells_after_move(board.cells(), mv.from as int, mv.to as int),
            child.turn == board.turn.spec_opposite(),
        ensures
            final(self).wf(),
            final(self).eval == old(self).eval,
            final(self).stops_seen() >= old(self).stops_seen(),
            final(self).table_answers() >= old(self).table_answers(),
            final(self).roots == old(self).roots,
            final(self).stop_raises() == old(self).stop_raises(),
            root_step(
                r.6@,
                board.cells(),
                board.turn,
                mv,
                depth as int,
                alpha as int,
                beta as int,
                delta as int,
                best_score as int,
                best_move,
            ) == Some((r.0 as int, r.1 as int, r.2 as int, r.3 as int, r.4, r.5)),
            -INF <= r.0 < r.1 <= INF,
            0 < r.2 <= 2 * INF,
            in_band(r.3 as int),
            r.4 == mv || r.4 == best_move,
    {
        let mut alpha = alpha;
        let mut beta = beta;
        let mut delta = delta;
        let mut best_score = best_score;
        let mut best_move = best_move;
        let ghost mut calls: Seq<SearchCall> = Seq::empty();
        // Zero-window search first
        let mut score = -self.alpha_beta(child, depth - 1, -alpha - 1, -alpha, 1);
        proof {
            calls = calls.push(self.last@);
        }
        // Fail high: search again with the full window
        if score > alpha && score < beta {
            score = -self.alpha_beta(child, depth - 1, -beta, -alpha, 1);
            proof {
                calls = calls.push(self.last@);
            }
        }
        if score > best_score {
            best_score = score;
            best_move = mv;
        }
        if score >= beta {
            return (alpha, beta, delta, best_score, best_move, true, Ghost(calls));
        }
        // Fail low: widen the window and search this move again
        if score <= alpha {
            alpha = if alpha - delta < -INF {
                -INF
            } else {
                alpha - delta
            };
            delta = delta + delta / 2;
            // Beyond twice INF the window already spans every score.
            if delta > 2 * INF {
                delta = 2 * INF;
            }
            score = -self.alpha_beta(child, depth - 1, -beta, -alpha, 1);
            proof {
                calls = calls.push(self.last@);
            }
            if score > best_score {
                best_score = score;
                best_move = mv;
            }
        }
        alpha = if best_score - delta < -INF {
            -INF
        } else {
            best_score - delta
        };
        beta = if best_score + delta > INF {
            INF
        } else {
            best_score + delta
        };
        (alpha, beta, delta, best_score, best_move, false, Ghost(calls))
    }

    /// Iterative deepening for one thread of a Lazy SMP search: search to
    /// depth 1, 2, ... (each thread offset by `thread_id % 3` plies to
    /// diversify) until the stop flag rises, a forced mate is found, or
    /// `MAX_DEPTH` iterations are done. Returns the root search of the
    /// deepest iteration that completed before the stop flag was seen, and
    /// nothing only when the thread saw the flag raised. A forced mate raises
    /// the stop flag for all threads.
    pub fn iterative_deepen(&mut self, board: &Board, thread_id: u32) -> (best: Option<(Move, i32, u32)>)
        requires
            old(self).wf(),
        ensures
            final(self).wf(),
            best matches Some((mv, score, d)) ==> answer_ok(board.cells(), board.turn, mv)
                && in_band(score as int) && thread_id % 3 + 1 <= d <= MAX_DEPTH + thread_id % 3,
            best is None ==> final(self).stops_seen() > old(self).stops_seen(),
            ({
                let before = old(self).root_searches().len();
                let roots = final(self).root_searches();
                &&& prefix_of(old(self).root_searches(), roots)
                &&& forall|j: int|
                    before <= j < roots.len() ==> (#[trigger] roots[j]).0 == thread_id % 3 + (j - before) + 1
                &&& best matches Some((mv, score, d)) ==> exists|j: int|
                    before <= j < roots.len() && #[trigger] roots[j] == (d, score, mv) && (j == roots.len() - 1
                        || final(self).stops_seen() > old(self).stops_seen())
            }),
            best matches Some((_, score, _)) && (score >= MATE_SCORE - 100 || score <= -(MATE_SCORE - 100))
                ==> final(self).stop_raises() > old(self).stop_raises(),
    {
        let color = board.turn;
        let mut depth: u32 = 1;
        let mut last_score: i32 = 0;
        let mut best: Option<(Move, i32, u32)> = None;
        let ghost before = self.roots@.len();
        proof {
            lemma_prefix_refl(self.roots@);
        }
        while depth <= MAX_DEPTH
            invariant
                1 <= depth <= MAX_DEPTH + 1,
                color == board.turn,
                self.wf(),
                in_band(last_score as int),
                best matches Some((mv, score, d)) ==> answer_ok(board.cells(), board.turn, mv)
                    && in_band(score as int) && thread_id % 3 + 1 <= d <= MAX_DEPTH + thread_id % 3,
                self.stops_seen() >= old(self).stops_seen(),
                best is None && depth > 1 ==> self.stops_seen() > old(self).stops_seen(),
                before == old(self).roots@.len(),
                self.roots@.len() == before + depth - 1,
                prefix_of(old(self).roots@, self.roots@),
                forall|j: int|
                    before <= j < self.roots@.len() ==> (#[trigger] self.roots@[j]).0 == thread_id % 3 + (j
                        - before) + 1,
                best matches Some((mv, score, d)) ==> last_score == score && exists|j: int|
                    before <= j < self.roots@.len() && #[trigger] self.roots@[j] == (d, score, mv) && (j
                        == self.roots@.len() - 1 || self.stops_seen() > old(self).stops_seen()),
                self.stop_raises() == old(self).stop_raises(),
            ensures
                self.wf(),
                in_band(last_score as int),
                best matches Some((mv, score, d)) ==> answer_ok(board.cells(), board.turn, mv)
                    && in_band(score as int) && thread_id % 3 + 1 <= d <= MAX_DEPTH + thread_id % 3,
                best is None ==> self.stops_seen() > old(self).stops_seen(),
                self.stops_seen() >= old(self).stops_seen(),
                prefix_of(old(self).roots@, self.roots@),
                forall|j: int|
                    before <= j < self.roots@.len() ==> (#[trigger] self.roots@[j]).0 == thread_id % 3 + (j
                        - before) + 1,
                best matches Some((mv, score, d)) ==> last_score == score && exists|j: int|
                    before <= j < self.roots@.len() && #[trigger] self.roots@[j] == (d, score, mv) && (j
                        == self.roots@.len() - 1 || self.stops_seen() > old(self).stops_seen()),
                self.stop_raises() == old(self).stop_raises(),
            decreases MAX_DEPTH + 1 - depth,
        {
            if self.stopped() {
                break;
            }
            // Slightly perturb the depth per thread to diversify
            let thread_depth = depth + thread_id % 3;
            let ghost r0 = self.roots@;
            let (score, best_mv) = self.search_root(board, thread_depth, color);
            proof {
                assert(self.roots@ == r0.push((thread_depth, score, best_mv)));
                assert(self.roots@.subrange(0, old(self).roots@.len() as int) =~= r0.subrange(0, old(self).roots@.len() as int));
                assert forall|j: int| before <= j < self.roots@.len() implies (#[trigger] self.roots@[j]).0 == thread_id % 3 + (j - before) + 1 by {
                    if j < r0.len() {
                        assert(self.roots@[j] == r0[j]);
                    }
                }
                if let Some((mv, s, d)) = best {
                    let j = choose|j: int| before <= j < r0.len() && #[trigger] r0[j] == (d, s, mv) && (j == r0.len() - 1 || self.stops_seen() > old(self).stops_seen());
                    assert(self.roots@[j] == r0[j]);
                }
            }
            if !self.stopped() {
                last_score = score;
                best = Some((best_mv, score, thread_depth));
                proof {
                    let j = self.roots@.len() - 1;
                    assert(self.roots@[j] == (thread_depth, score, best_mv));
                }
            }
            depth += 1;
            // Early exit on a forced mate
            if score >= MATE_SCORE - 100 || score <= -(MATE_SCORE - 100) {
                break;
            }
        }
        let ghost roots_after = self.roots@;
        if last_score >= MATE_SCORE - 100 || last_score <= -(MATE_SCORE - 100) {
            self.request_stop();
        }
        proof {
            assert(self.roots@ == roots_after);
            assert(self.root_searches() == roots_after);
            assert(prefix_of(old(self).root_searches(), self.root_searches()));
            if let Some((mv, s, d)) = best {
                let j = choose|j: int| before <= j < roots_after.len() && #[trigger] roots_after[j] == (d, s, mv) && (j == roots_after.len() - 1 || self.stops_seen() > old(self).stops_seen());
                assert(self.root_searches()[j] == (d, s, mv));
            }
        }
        best
    }
}

} // verus!
