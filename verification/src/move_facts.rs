//! Facts about generated moves: every move starts on the moving piece's
//! square, ends on the board, and is a capture exactly when it lands on an
//! enemy piece; lists have bounded length.

use vstd::prelude::*;
use crate::board::{file_of, moves_for, moves_of_side, on_board, owned_by, rank_of, sq_of, Cell};
use crate::movegen::{direction_moves, sliding_moves};
use crate::pieces::{
    dragon_dirs, hop_moves, knight_capture, knight_quiet_moves, paladin_jump_moves,
    paladin_jumps, ORTHOGONALS,
};
use crate::rays::{
    is_direction, lemma_ray_facts, leap_moves, leaper_moves, mv, ray, ray_len, slide_moves,
};
use crate::types::{Color, Move, PieceKind};

verus! {

/// `m` is a move of a `color` piece from `from`: it ends on the board, on an
/// empty square (a quiet move) or on an enemy piece (a capture).
pub open spec fn sound_move(cells: Seq<Cell>, from: int, color: Color, m: Move) -> bool {
    &&& m.from == from
    &&& m.to < 64
    &&& match cells[m.to as int] {
        None => !m.capture,
        Some((pc, _)) => pc != color && m.capture,
    }
}

pub open spec fn all_sound(cells: Seq<Cell>, from: int, color: Color, ms: Seq<Move>) -> bool {
    forall|i: int| 0 <= i < ms.len() ==> sound_move(cells, from, color, #[trigger] ms[i])
}

pub open spec fn all_captures(ms: Seq<Move>) -> bool {
    forall|i: int| 0 <= i < ms.len() ==> (#[trigger] ms[i]).capture
}

pub open spec fn targets_on_board(targets: Seq<int>) -> bool {
    forall|i: int| 0 <= i < targets.len() ==> 0 <= #[trigger] targets[i] < 64
}

pub proof fn lemma_ray_on_board(sq: int, df: int, dr: int)
    requires
        0 <= sq < 64,
    ensures
        targets_on_board(ray(sq, df, dr)),
        ray(sq, df, dr).len() <= 7,
{
    assert forall|i: int| 0 <= i < ray(sq, df, dr).len() implies 0 <= #[trigger] ray(sq, df, dr)[i] < 64 by {
    }
}

pub proof fn lemma_slide(cells: Seq<Cell>, from: int, targets: Seq<int>, color: Color, co: bool, jump: bool)
    requires
        0 <= from < 64,
        targets_on_board(targets),
    ensures
        all_sound(cells, from, color, slide_moves(cells, from, targets, color, co, jump)),
        co ==> all_captures(slide_moves(cells, from, targets, color, co, jump)),
        slide_moves(cells, from, targets, color, co, jump).len() <= targets.len(),
    decreases targets.len(),
{
    if targets.len() > 0 {
        assert(targets_on_board(targets.drop_first()));
        lemma_slide(cells, from, targets.drop_first(), color, co, jump);
    }
}

proof fn lemma_hop(cells: Seq<Cell>, from: int, targets: Seq<int>, color: Color, co: bool)
    requires
        0 <= from < 64,
        targets_on_board(targets),
    ensures
        all_sound(cells, from, color, hop_moves(cells, from, targets, color, co)),
        co ==> all_captures(hop_moves(cells, from, targets, color, co)),
        hop_moves(cells, from, targets, color, co).len() <= targets.len(),
    decreases targets.len(),
{
    if targets.len() > 0 {
        assert(targets_on_board(targets.drop_first()));
        lemma_hop(cells, from, targets.drop_first(), color, co);
    }
}

proof fn lemma_sliding(cells: Seq<Cell>, from: int, dirs: Seq<(i8, i8)>, color: Color, co: bool, jump: bool)
    requires
        0 <= from < 64,
    ensures
        all_sound(cells, from, color, sliding_moves(cells, from, dirs, color, co, jump)),
        co ==> all_captures(sliding_moves(cells, from, dirs, color, co, jump)),
        sliding_moves(cells, from, dirs, color, co, jump).len() <= 7 * dirs.len(),
    decreases dirs.len(),
{
    if dirs.len() > 0 {
        lemma_sliding(cells, from, dirs.drop_last(), color, co, jump);
        let d = dirs.last();
        lemma_ray_on_board(from, d.0 as int, d.1 as int);
        lemma_slide(cells, from, ray(from, d.0 as int, d.1 as int), color, co, jump);
    }
}

proof fn lemma_dragon(cells: Seq<Cell>, from: int, dirs: Seq<(i8, i8)>, color: Color, co: bool)
    requires
        0 <= from < 64,
    ensures
        all_sound(cells, from, color, dragon_dirs(cells, from, dirs, color, co)),
        co ==> all_captures(dragon_dirs(cells, from, dirs, color, co)),
        dragon_dirs(cells, from, dirs, color, co).len() <= 7 * dirs.len(),
    decreases dirs.len(),
{
    if dirs.len() > 0 {
        lemma_dragon(cells, from, dirs.drop_last(), color, co);
        let d = dirs.last();
        lemma_ray_on_board(from, d.0 as int, d.1 as int);
        lemma_hop(cells, from, ray(from, d.0 as int, d.1 as int), color, co);
    }
}

proof fn lemma_leaper(cells: Seq<Cell>, from: int, offs: Seq<(i8, i8)>, color: Color, co: bool, jump: bool)
    requires
        0 <= from < 64,
    ensures
        all_sound(cells, from, color, leaper_moves(cells, from, offs, color, co, jump)),
        co ==> all_captures(leaper_moves(cells, from, offs, color, co, jump)),
        leaper_moves(cells, from, offs, color, co, jump).len() <= offs.len(),
    decreases offs.len(),
{
    if offs.len() > 0 {
        lemma_leaper(cells, from, offs.drop_last(), color, co, jump);
    }
}

proof fn lemma_paladin_jumps(cells: Seq<Cell>, from: int, offs: Seq<(i8, i8)>, color: Color, co: bool)
    requires
        0 <= from < 64,
    ensures
        all_sound(cells, from, color, paladin_jumps(cells, from, offs, color, co)),
        co ==> all_captures(paladin_jumps(cells, from, offs, color, co)),
        paladin_jumps(cells, from, offs, color, co).len() <= offs.len(),
    decreases offs.len(),
{
    if offs.len() > 0 {
        lemma_paladin_jumps(cells, from, offs.drop_last(), color, co);
    }
}

/// Every move of the piece on `sq` is sound for its colour; with
/// `captures_only` every move is a capture; at most 64 moves.
pub proof fn lemma_moves_for(cells: Seq<Cell>, sq: int, co: bool)
    requires
        0 <= sq < 64,
    ensures
        cells[sq] matches Some((c, _)) ==> all_sound(cells, sq, c, moves_for(cells, sq, co)),
        co ==> all_captures(moves_for(cells, sq, co)),
        moves_for(cells, sq, co).len() <= 64,
{
    match cells[sq] {
        None => {},
        Some((c, k)) => {
            match k {
                PieceKind::Emperor => {
                    lemma_leaper(cells, sq, crate::pieces::ADJACENT@, c, co, true);
                },
                PieceKind::Empress => {
                    lemma_sliding(cells, sq, crate::pieces::ADJACENT@, c, co, false);
                },
                PieceKind::Priest => {
                    lemma_sliding(cells, sq, crate::pieces::DIAGONALS@, c, co, false);
                    lemma_leaper(cells, sq, crate::pieces::KNIGHT_JUMPS@, c, co, true);
                },
                PieceKind::Paladin => {
                    lemma_leaper(cells, sq, crate::pieces::ADJACENT@, c, co, true);
                    lemma_paladin_jumps(cells, sq, crate::pieces::PALADIN_JUMPS@, c, co);
                },
                PieceKind::Dragon => {
                    lemma_dragon(cells, sq, ORTHOGONALS@, c, co);
                },
                PieceKind::Knight => {},
            }
        },
    }
}

/// A move of a side: it starts on a square holding a piece of that side and
/// is sound for it.
pub open spec fn side_move(cells: Seq<Cell>, color: Color, m: Move) -> bool {
    m.from < 64 && owned_by(cells[m.from as int], color) && sound_move(cells, m.from as int, color, m)
}

/// Every move of a side is a `side_move`; with `captures_only` each is a
/// capture; there are at most 64 per square scanned.
pub proof fn lemma_moves_of_side(cells: Seq<Cell>, color: Color, co: bool, n: nat)
    requires
        n <= 64,
    ensures
        forall|i: int|
            0 <= i < moves_of_side(cells, color, co, n).len() ==> side_move(
                cells,
                color,
                #[trigger] moves_of_side(cells, color, co, n)[i],
            ),
        co ==> all_captures(moves_of_side(cells, color, co, n)),
        moves_of_side(cells, color, co, n).len() <= 64 * n,
    decreases n,
{
    if n > 0 {
        lemma_moves_of_side(cells, color, co, (n - 1) as nat);
        lemma_moves_for(cells, n - 1, co);
    }
}

} // verus!
