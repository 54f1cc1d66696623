//! What an alpha-beta node does, recorded as it searches: each child search
//! with its depth, window and returned score, and each move skipped by
//! futility pruning. The specifications here replay those records and say
//! which searches a node must make and which score follows from them.

use vstd::prelude::*;
use crate::board::{cells_after_move, Cell};
use crate::search::{spec_futility_margin, INF};
use crate::types::{Color, Move};

verus! {

/// One search of a position: the position, the depth and window asked for,
/// the ply, and the score returned.
pub struct SearchCall {
    pub cells: Seq<Cell>,
    pub turn: Color,
    pub depth: u32,
    pub alpha: i32,
    pub beta: i32,
    pub ply: usize,
    pub score: i32,
}

/// What a node did with one of its ordered moves: skipped it by futility
/// pruning, having evaluated its own position at the given score, or searched
/// the position after the move with the given calls, in order.
pub enum MoveStep {
    Skipped(i32),
    Searched(Seq<SearchCall>),
}

/// What a node did: its null-move search, if any; its moves in search order;
/// and one step for each move it came to, in that order.
pub struct NodeLog {
    pub null_search: Option<SearchCall>,
    pub moves: Seq<Move>,
    pub steps: Seq<MoveStep>,
}

/// `a - b`, but not below zero.
pub open spec fn sat_sub(a: int, b: int) -> int {
    if a >= b {
        a - b
    } else {
        0
    }
}

/// The late-move reduction of a quiet move searched after `searched` others,
/// at `depth`, out of check: one ply from the fifth move on, one more every
/// five moves, never reaching `depth`.
pub open spec fn spec_reduction(searched: int, depth: int, in_check: bool, m: Move) -> int {
    if searched >= 4 && depth >= 3 && !in_check && !m.capture {
        let r = 1 + (searched - 4) / 5;
        if r > depth - 1 {
            depth - 1
        } else {
            r
        }
    } else {
        0
    }
}

/// The depth left for the null-move search at `depth`: R = 2 + depth / 6
/// plies less, and one for the move passed.
pub open spec fn null_depth(depth: int) -> int {
    sat_sub(depth, 1 + 2 + depth / 6)
}

/// `c` searched the position after `m` from (`cells`, `turn`), one ply
/// deeper, to `depth` within (`alpha`, `beta`).
pub open spec fn child_call(c: SearchCall, cells: Seq<Cell>, turn: Color, m: Move, ply: int, depth: int, alpha: int, beta: int) -> bool {
    &&& c.cells == cells_after_move(cells, m.from as int, m.to as int)
    &&& c.turn == turn.spec_opposite()
    &&& c.ply == ply + 1
    &&& c.depth == depth
    &&& c.alpha == alpha
    &&& c.beta == beta
}

/// The score a move gets from its child searches `calls`, when they are the
/// searches a node at `depth` (plus `ext`) makes for its move `m`, searched
/// after `searched` others, with the window (`alpha`, `beta`):
/// - the first move is searched with the full window to the reduced depth;
/// - a later move with a zero window at `alpha`; if it beats `alpha` and was
///   reduced, again unreduced with the zero window; if it then lies inside
///   the window, once more with the full window to `depth + ext - 1`.
/// The move's score is the last search's score, negated. `None` when the
/// calls are not these searches.
pub open spec fn searched_score(
    calls: Seq<SearchCall>,
    cells: Seq<Cell>,
    turn: Color,
    m: Move,
    ply: int,
    depth: int,
    ext: int,
    in_check: bool,
    searched: int,
    alpha: int,
    beta: int,
) -> Option<int> {
    let r = spec_reduction(searched, depth, in_check, m);
    let sd = sat_sub(depth + ext, 1 + r);
    if searched == 0 {
        if calls.len() == 1 && child_call(calls[0], cells, turn, m, ply, sd, -beta, -alpha) {
            Some(-calls[0].score)
        } else {
            None
        }
    } else if calls.len() >= 1 && child_call(calls[0], cells, turn, m, ply, sd, -alpha - 1, -alpha) {
        let s0 = -calls[0].score;
        let again = s0 > alpha && r > 0;
        let k: int = if again {
            2
        } else {
            1
        };
        if again && !(calls.len() >= 2 && child_call(calls[1], cells, turn, m, ply, sd + r, -alpha - 1, -alpha)) {
            None
        } else {
            let s1 = if again {
                -calls[1].score
            } else {
                s0
            };
            if s1 > alpha && s1 < beta {
                if calls.len() == k + 1 && child_call(calls[k], cells, turn, m, ply, depth + ext - 1, -beta, -alpha) {
                    Some(-calls[k].score)
                } else {
                    None
                }
            } else if calls.len() == k {
                Some(s1)
            } else {
                None
            }
        }
    }
    else {
        None
    }
}

/// A quiet move may be skipped at a node near the leaves, out of check, after
/// the first searched move, when the node's evaluation `sp` plus the futility
/// margin does not reach `alpha`.
pub open spec fn futile(m: Move, depth: int, ext: int, in_check: bool, searched: int, sp: int, alpha: int) -> bool {
    depth + ext <= 3 && !in_check && !m.capture && searched > 0 && sp + spec_futility_margin(
        (depth + ext) as u32,
    ) <= alpha
}

/// The node's state after its first `n` steps over `moves`: the current
/// `alpha`, the best score, the number of moves searched, and whether a move
/// reached `beta` (which ends the node). `None` when a step is not what the
/// node must do.
pub open spec fn run(
    steps: Seq<MoveStep>,
    moves: Seq<Move>,
    cells: Seq<Cell>,
    turn: Color,
    ply: int,
    depth: int,
    ext: int,
    in_check: bool,
    alpha0: int,
    beta: int,
    n: nat,
) -> Option<(int, int, int, bool)>
    decreases n,
{
    if n == 0 {
        Some((alpha0, -INF as int, 0int, false))
    } else {
        match run(steps, moves, cells, turn, ply, depth, ext, in_check, alpha0, beta, (n - 1) as nat) {
            None => None,
            Some((alpha, best, searched, cut)) => {
                if cut || n - 1 >= moves.len() {
                    None
                } else {
                    let m = moves[n - 1];
                    match steps[n - 1] {
                        MoveStep::Skipped(sp) => if futile(m, depth, ext, in_check, searched, sp as int, alpha) {
                            Some((alpha, best, searched, false))
                        } else {
                            None
                        },
                        MoveStep::Searched(calls) => match searched_score(
                            calls,
                            cells,
                            turn,
                            m,
                            ply,
                            depth,
                            ext,
                            in_check,
                            searched,
                            alpha,
                            beta,
                        ) {
                            None => None,
                            Some(s) => {
                                let best2 = if s > best {
                                    s
                                } else {
                                    best
                                };
                                if s >= beta {
                                    Some((alpha, best2, searched + 1, true))
                                } else {
                                    Some(
                                        (
                                            if s > alpha {
                                                s
                                            } else {
                                                alpha
                                            },
                                            best2,
                                            searched + 1,
                                            false,
                                        ),
                                    )
                                }
                            },
                        },
                    }
                }
            },
        }
    }
}

/// `score` is what a node at (`cells`, `turn`), `ply`, `depth` with check
/// extension `ext`, window (`alpha`, `beta`), with `legal` moves, returns
/// after the searches in `log`:
/// - it makes the null-move search exactly when out of check at depth 3 or
///   more with depth left for it, passing the move with the window
///   (-`beta`, -`beta` + 1); when that search fails high the score is `beta`;
/// - otherwise it walks all its legal moves in its order, each skipped or
///   searched as `run` says, until one reaches `beta`, and its score is the
///   best of the moves' scores (`-INF` when all were skipped).
pub open spec fn node_value(
    log: NodeLog,
    legal: Seq<Move>,
    cells: Seq<Cell>,
    turn: Color,
    ply: int,
    depth: int,
    ext: int,
    in_check: bool,
    alpha: int,
    beta: int,
    score: int,
) -> bool {
    let nd = null_depth(depth);
    &&& (log.null_search is Some <==> (!in_check && depth >= 3 && nd > 0))
    &&& (log.null_search matches Some(c) ==> c.cells == cells && c.turn == turn.spec_opposite() && c.ply
        == ply + 1 && c.depth == nd && c.alpha == -beta && c.beta == -beta + 1)
    &&& if log.null_search matches Some(c) && -c.score >= beta {
        score == beta
    } else {
        &&& log.moves.len() == legal.len()
        &&& forall|k: int| 0 <= k < log.moves.len() ==> legal.contains(#[trigger] log.moves[k])
        &&& run(log.steps, log.moves, cells, turn, ply, depth, ext, in_check, alpha, beta, log.steps.len())
            matches Some((_, best, _, cut)) && (cut || log.steps.len() == log.moves.len()) && score == best
    }
}

/// What the root search did: its moves in search order, and for each move it
/// came to, the searches it made of the position after that move.
pub struct RootLog {
    pub moves: Seq<Move>,
    pub steps: Seq<Seq<SearchCall>>,
}

pub open spec fn max_int(a: int, b: int) -> int {
    if a >= b {
        a
    } else {
        b
    }
}

pub open spec fn min_int(a: int, b: int) -> int {
    if a <= b {
        a
    } else {
        b
    }
}

/// The aspiration window around `best` with half-width `delta`, within
/// `[-INF, INF]`.
pub open spec fn window_around(best: int, delta: int) -> (int, int) {
    (max_int(best - delta, -INF as int), min_int(best + delta, INF as int))
}

/// The root's state after one more move `m`, searched with `calls` from the
/// state (`alpha`, `beta`, `delta`, `best`, `best_move`) by a root search to
/// `depth`: a zero-window search at `alpha`, then the full window when the
/// score lies inside it; a move reaching `beta` ends the root search; a move
/// failing low widens the window by `delta` below, grows `delta` by half (at
/// most `2 * INF`), and is searched again with the widened window. A better
/// score makes the move the best; the window is then re-centred on the best
/// score. The last component tells whether the root search ended. `None`
/// when the calls are not these searches.
pub open spec fn root_step(
    calls: Seq<SearchCall>,
    cells: Seq<Cell>,
    turn: Color,
    m: Move,
    depth: int,
    alpha: int,
    beta: int,
    delta: int,
    best: int,
    best_move: Move,
) -> Option<(int, int, int, int, Move, bool)> {
    if !(calls.len() >= 1 && child_call(calls[0], cells, turn, m, 0, depth - 1, -alpha - 1, -alpha)) {
        None
    } else {
        let s0 = -calls[0].score;
        let full = s0 > alpha && s0 < beta;
        let k: int = if full {
            2
        } else {
            1
        };
        if full && !(calls.len() >= 2 && child_call(calls[1], cells, turn, m, 0, depth - 1, -beta, -alpha)) {
            None
        } else {
            let s1 = if full {
                -calls[1].score
            } else {
                s0
            };
            let b1 = if s1 > best {
                s1
            } else {
                best
            };
            let m1 = if s1 > best {
                m
            } else {
                best_move
            };
            if s1 >= beta {
                if calls.len() == k {
                    Some((alpha, beta, delta, b1, m1, true))
                } else {
                    None
                }
            } else if s1 <= alpha {
                let a2 = max_int(alpha - delta, -INF as int);
                let d2 = min_int(delta + delta / 2, 2 * INF);
                if calls.len() == k + 1 && child_call(calls[k], cells, turn, m, 0, depth - 1, -beta, -a2) {
                    let s2 = -calls[k].score;
                    let b2 = if s2 > b1 {
                        s2
                    } else {
                        b1
                    };
                    let m2 = if s2 > b1 {
                        m
                    } else {
                        m1
                    };
                    Some((window_around(b2, d2).0, window_around(b2, d2).1, d2, b2, m2, false))
                } else {
                    None
                }
            } else if calls.len() == k {
                Some((window_around(b1, delta).0, window_around(b1, delta).1, delta, b1, m1, false))
            } else {
                None
            }
        }
    }
}

/// The root's state after its first `n` moves (`n >= 1`): the first move is
/// searched once with the full window `(-INF, INF)`, which sets the best
/// score and an aspiration window of half-width 75 around it; each later
/// move goes as `root_step` says.
pub open spec fn root_run(
    steps: Seq<Seq<SearchCall>>,
    moves: Seq<Move>,
    cells: Seq<Cell>,
    turn: Color,
    depth: int,
    n: nat,
) -> Option<(int, int, int, int, Move, bool)>
    decreases n,
{
    if n == 0 || n > moves.len() || n > steps.len() {
        None
    } else if n == 1 {
        let calls = steps[0];
        if calls.len() == 1 && child_call(calls[0], cells, turn, moves[0], 0, depth - 1, -INF as int, INF as int) {
            let b = -calls[0].score;
            Some((window_around(b, 75).0, window_around(b, 75).1, 75int, b, moves[0], false))
        } else {
            None
        }
    } else {
        match root_run(steps, moves, cells, turn, depth, (n - 1) as nat) {
            None => None,
            Some((alpha, beta, delta, best, bm, done)) => if done {
                None
            } else {
                root_step(steps[n - 1], cells, turn, moves[n - 1], depth, alpha, beta, delta, best, bm)
            },
        }
    }
}

/// `res` is what a root search of (`cells`, `turn`) to `depth` with `legal`
/// moves returns after the searches in `log`: it walks all its legal moves in
/// its order as `root_run` says, until one reaches the window's top, and
/// returns the best score and the move that first reached it.
pub open spec fn root_value(log: RootLog, legal: Seq<Move>, cells: Seq<Cell>, turn: Color, depth: int, res: (i32, Move)) -> bool {
    &&& log.moves.len() == legal.len()
    &&& forall|k: int| 0 <= k < log.moves.len() ==> legal.contains(#[trigger] log.moves[k])
    &&& root_run(log.steps, log.moves, cells, turn, depth, log.steps.len()) matches Some(
        (_, _, _, best, bm, done),
    ) && (done || log.steps.len() == log.moves.len()) && res.0 == best && res.1 == bm
}

pub proof fn lemma_root_run_prefix(
    steps: Seq<Seq<SearchCall>>,
    before: Seq<Seq<SearchCall>>,
    moves: Seq<Move>,
    cells: Seq<Cell>,
    turn: Color,
    depth: int,
    n: nat,
)
    requires
        n <= before.len(),
        before.len() <= steps.len(),
        forall|j: int| 0 <= j < before.len() ==> steps[j] == before[j],
    ensures
        root_run(steps, moves, cells, turn, depth, n) == root_run(before, moves, cells, turn, depth, n),
    decreases n,
{
    if n > 1 {
        lemma_root_run_prefix(steps, before, moves, cells, turn, depth, (n - 1) as nat);
    }
}

/// `a` is the start of `b`.
pub open spec fn prefix_of<A>(a: Seq<A>, b: Seq<A>) -> bool {
    a.len() <= b.len() && b.subrange(0, a.len() as int) == a
}

pub proof fn lemma_prefix_refl<A>(a: Seq<A>)
    ensures
        prefix_of(a, a),
{
    assert(a.subrange(0, a.len() as int) =~= a);
}

pub proof fn lemma_prefix_trans<A>(a: Seq<A>, b: Seq<A>, c: Seq<A>)
    requires
        prefix_of(a, b),
        prefix_of(b, c),
    ensures
        prefix_of(a, c),
{
    assert(c.subrange(0, a.len() as int) =~= b.subrange(0, a.len() as int));
}

proof fn lemma_run_same(
    a: Seq<MoveStep>,
    b: Seq<MoveStep>,
    moves: Seq<Move>,
    cells: Seq<Cell>,
    turn: Color,
    ply: int,
    depth: int,
    ext: int,
    in_check: bool,
    alpha0: int,
    beta: int,
    n: nat,
)
    requires
        n <= a.len(),
        n <= b.len(),
        forall|j: int| 0 <= j < n ==> a[j] == b[j],
    ensures
        run(a, moves, cells, turn, ply, depth, ext, in_check, alpha0, beta, n) == run(
            b,
            moves,
            cells,
            turn,
            ply,
            depth,
            ext,
            in_check,
            alpha0,
            beta,
            n,
        ),
    decreases n,
{
    if n > 0 {
        lemma_run_same(a, b, moves, cells, turn, ply, depth, ext, in_check, alpha0, beta, (n - 1) as nat);
        assert(a[n - 1] == b[n - 1]);
    }
}

/// Adding a step keeps the state after the earlier steps.
pub proof fn lemma_run_prefix(
    steps: Seq<MoveStep>,
    before: Seq<MoveStep>,
    moves: Seq<Move>,
    cells: Seq<Cell>,
    turn: Color,
    ply: int,
    depth: int,
    ext: int,
    in_check: bool,
    alpha0: int,
    beta: int,
)
    requires
        steps.len() == before.len() + 1,
        steps.drop_last() == before,
    ensures
        run(steps, moves, cells, turn, ply, depth, ext, in_check, alpha0, beta, before.len()) == run(
            before,
            moves,
            cells,
            turn,
            ply,
            depth,
            ext,
            in_check,
            alpha0,
            beta,
            before.len(),
        ),
{
    assert forall|j: int| 0 <= j < before.len() implies steps[j] == before[j] by {
        assert(steps.drop_last()[j] == steps[j]);
    }
    lemma_run_same(steps, before, moves, cells, turn, ply, depth, ext, in_check, alpha0, beta, before.len());
}

} // verus!
