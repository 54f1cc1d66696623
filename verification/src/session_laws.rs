//! Laws of the client session: what the player can play by clicking.

use vstd::prelude::*;
use crate::board::{cells_after_move, in_check, legal_moves, moves_for, moves_of_side, owned_by, Cell};
use crate::laws::lemma_safe_moves_are_legal;
use crate::move_facts::{lemma_moves_for, sound_move};
use crate::session::{click_result, started, targets_of, GameMode, SessionView};
use crate::types::{Color, Move};

verus! {

/// The session agrees with its board: a selected square holds a piece of
/// the player and the targets are that piece's safe destinations, and the
/// player is told it may move only when it is the player's turn.
pub open spec fn consistent(v: SessionView) -> bool {
    &&& v.cells.len() == 64
    &&& v.selected matches Some(s) ==> s < 64 && owned_by(v.cells[s as int], v.player) && v.targets
        == targets_of(v.cells, s as int, v.player)
    &&& v.our_turn ==> v.turn == v.player
}

/// A move of the piece on `sq` is among the moves of its side.
proof fn lemma_in_moves_of_side(cells: Seq<Cell>, color: Color, co: bool, n: nat, sq: int, j: int)
    requires
        0 <= sq < n <= 64,
        owned_by(cells[sq], color),
        0 <= j < moves_for(cells, sq, co).len(),
    ensures
        moves_of_side(cells, color, co, n).contains(moves_for(cells, sq, co)[j]),
    decreases n,
{
    let prev = moves_of_side(cells, color, co, (n - 1) as nat);
    let all = moves_of_side(cells, color, co, n);
    if sq == n - 1 {
        assert(all == prev + moves_for(cells, sq, co));
        assert(all[prev.len() + j] == moves_for(cells, sq, co)[j]);
    } else {
        lemma_in_moves_of_side(cells, color, co, (n - 1) as nat, sq, j);
        let k = choose|k: int| 0 <= k < prev.len() && prev[k] == moves_for(cells, sq, co)[j];
        assert(all[k] == prev[k]);
    }
}

/// A target of the piece on `sel` is reached by one of its moves that keeps
/// the player's Emperor safe, and that move is the one a click plays.
proof fn lemma_target_move(cells: Seq<Cell>, sel: int, player: Color, square: int)
    requires
        cells.len() == 64,
        0 <= sel < 64,
        0 <= square < 64,
        owned_by(cells[sel], player),
        targets_of(cells, sel, player).contains(square as u8),
    ensures
        ({
            let mv = Move { from: sel as u8, to: square as u8, capture: cells[square] is Some };
            &&& exists|j: int| 0 <= j < moves_for(cells, sel, false).len() && moves_for(cells, sel, false)[j] == mv
            &&& !in_check(cells_after_move(cells, mv.from as int, mv.to as int), player)
        }),
{
    broadcast use vstd::seq_lib::group_filter_ensures;
    let ms = moves_for(cells, sel, false);
    let p = |m: Move| !in_check(cells_after_move(cells, m.from as int, m.to as int), player);
    let f = ms.filter(p);
    let t = targets_of(cells, sel, player);
    assert(t == f.map_values(|m: Move| m.to));
    let k = choose|k: int| 0 <= k < t.len() && t[k] == square as u8;
    let m = f[k];
    assert(p(m));
    assert(f.contains(m));
    ms.lemma_filter_contains_rev(p, m);
    let j = choose|j: int| 0 <= j < ms.len() && ms[j] == m;
    lemma_moves_for(cells, sel, false);
    assert(sound_move(cells, sel, player, ms[j]));
    let mv = Move { from: sel as u8, to: square as u8, capture: cells[square] is Some };
    assert(m.to == square as u8);
    assert(m == mv);
}

/// Clicking keeps the session consistent with its board, and a move that a
/// click plays is a legal move of the side to move.
pub proof fn lemma_click_plays_a_legal_move(v: SessionView, square: int)
    requires
        0 <= square < 64,
        consistent(v),
    ensures
        consistent(click_result(v, square).0),
        click_result(v, square).1 matches Some(mv) ==> legal_moves(v.cells, v.turn).contains(mv),
        click_result(v, square).1 matches Some(mv) ==> mv.from < 64 && mv.to < 64,
{
    if let Some(mv) = click_result(v, square).1 {
        let sel = v.selected->Some_0 as int;
        lemma_target_move(v.cells, sel, v.player, square);
        let ms = moves_for(v.cells, sel, false);
        let j = choose|j: int| 0 <= j < ms.len() && ms[j] == mv;
        lemma_in_moves_of_side(v.cells, v.player, false, 64, sel, j);
        lemma_safe_moves_are_legal(v.cells, v.turn, mv);
    }
}

/// A newly started game is consistent with its board.
pub proof fn lemma_started_is_consistent(v: SessionView, mode: GameMode, color: Color, opponent: Seq<char>)
    ensures
        consistent(started(v, mode, color, opponent)),
{
}

} // verus!
