//! Laws of the rules engine that relate several operations.

use vstd::prelude::*;
use crate::board::{
    cells_after_move, coord_to_index, in_check, index_to_coord, keeps_king_safe, legal_captures,
    legal_moves, moves_for, moves_of_side, pseudo_captures, pseudo_moves, sq_of, Cell,
};
use crate::movegen::{direction_moves, sliding_moves};
use crate::move_facts::{lemma_moves_of_side, side_move};
use crate::pieces::{
    dragon_dirs, hop_moves, knight_capture, knight_quiet_moves, paladin_jump_moves,
    paladin_jumps, ADJACENT, DIAGONALS, KNIGHT_JUMPS, ORTHOGONALS, PALADIN_JUMPS,
};
use crate::rays::{leap_moves, leaper_moves, ray, slide_moves};
use crate::types::{Color, Move};
use crate::zobrist::ZOBRIST_SIDE;

verus! {

/// Whether a move is a capture.
pub open spec fn is_capture() -> spec_fn(Move) -> bool {
    |m: Move| m.capture
}

proof fn lemma_filter_single<A>(x: A, p: spec_fn(A) -> bool)
    ensures
        seq![x].filter(p) == (if p(x) { seq![x] } else { Seq::<A>::empty() }),
{
    reveal_with_fuel(Seq::filter, 2);
    assert(seq![x].drop_last() =~= Seq::<A>::empty());
    if p(x) {
        assert(Seq::<A>::empty().push(x) =~= seq![x]);
    }
}

proof fn lemma_filter_empty<A>(p: spec_fn(A) -> bool)
    ensures
        Seq::<A>::empty().filter(p) == Seq::<A>::empty(),
{
    reveal_with_fuel(Seq::filter, 1);
}

proof fn lemma_filter_cons<A>(x: A, rest: Seq<A>, p: spec_fn(A) -> bool)
    ensures
        (seq![x] + rest).filter(p) == (if p(x) { seq![x] } else { Seq::<A>::empty() }) + rest.filter(p),
{
    Seq::filter_distributes_over_add(seq![x], rest, p);
    lemma_filter_single(x, p);
}

/// A sequence of captures is unchanged by keeping its captures.
proof fn lemma_filter_all_captures(s: Seq<Move>)
    requires
        forall|i: int| 0 <= i < s.len() ==> (#[trigger] s[i]).capture,
    ensures
        s.filter(is_capture()) == s,
    decreases s.len(),
{
    reveal_with_fuel(Seq::filter, 1);
    if s.len() > 0 {
        lemma_filter_all_captures(s.drop_last());
        assert(s.drop_last().push(s.last()) =~= s);
    }
}

proof fn lemma_slide_captures(
    cells: Seq<Cell>,
    from: int,
    targets: Seq<int>,
    color: Color,
    jump: bool,
)
    ensures
        slide_moves(cells, from, targets, color, true, jump) == slide_moves(
            cells,
            from,
            targets,
            color,
            false,
            jump,
        ).filter(is_capture()),
    decreases targets.len(),
{
    let p = is_capture();
    if targets.len() == 0 {
        lemma_filter_empty(p);
    } else {
        let t = targets[0];
        let rest = targets.drop_first();
        lemma_slide_captures(cells, from, rest, color, jump);
        let rf = slide_moves(cells, from, rest, color, false, jump);
        match cells[t] {
            None => {
                lemma_filter_cons(crate::rays::mv(from, t, false), rf, p);
                assert(Seq::<Move>::empty() + rf.filter(p) =~= rf.filter(p));
            },
            Some((pc, _)) => {
                let head = if pc != color {
                    seq![crate::rays::mv(from, t, true)]
                } else {
                    Seq::<Move>::empty()
                };
                lemma_filter_all_captures(head);
                if jump {
                    Seq::filter_distributes_over_add(head, rf, p);
                }
            },
        }
    }
}

proof fn lemma_hop_captures(cells: Seq<Cell>, from: int, targets: Seq<int>, color: Color)
    ensures
        hop_moves(cells, from, targets, color, true) == hop_moves(
            cells,
            from,
            targets,
            color,
            false,
        ).filter(is_capture()),
    decreases targets.len(),
{
    let p = is_capture();
    if targets.len() == 0 {
        lemma_filter_empty(p);
    } else {
        let t = targets[0];
        let rest = targets.drop_first();
        lemma_hop_captures(cells, from, rest, color);
        let rf = hop_moves(cells, from, rest, color, false);
        match cells[t] {
            None => {
                lemma_filter_cons(crate::rays::mv(from, t, false), rf, p);
                assert(Seq::<Move>::empty() + rf.filter(p) =~= rf.filter(p));
            },
            Some((pc, _)) => {
                if pc != color {
                    lemma_filter_single(crate::rays::mv(from, t, true), p);
                }
            },
        }
    }
}

proof fn lemma_sliding_captures(cells: Seq<Cell>, from: int, dirs: Seq<(i8, i8)>, color: Color, jump: bool)
    ensures
        sliding_moves(cells, from, dirs, color, true, jump) == sliding_moves(
            cells,
            from,
            dirs,
            color,
            false,
            jump,
        ).filter(is_capture()),
    decreases dirs.len(),
{
    let p = is_capture();
    if dirs.len() == 0 {
        lemma_filter_empty(p);
    } else {
        lemma_sliding_captures(cells, from, dirs.drop_last(), color, jump);
        let d = dirs.last();
        lemma_slide_captures(cells, from, ray(from, d.0 as int, d.1 as int), color, jump);
        lemma_filter_empty(p);
        Seq::filter_distributes_over_add(
            sliding_moves(cells, from, dirs.drop_last(), color, false, jump),
            direction_moves(cells, from, d, color, false, jump),
            p,
        );
    }
}

proof fn lemma_dragon_captures(cells: Seq<Cell>, from: int, dirs: Seq<(i8, i8)>, color: Color)
    ensures
        dragon_dirs(cells, from, dirs, color, true) == dragon_dirs(
            cells,
            from,
            dirs,
            color,
            false,
        ).filter(is_capture()),
    decreases dirs.len(),
{
    let p = is_capture();
    if dirs.len() == 0 {
        lemma_filter_empty(p);
    } else {
        lemma_dragon_captures(cells, from, dirs.drop_last(), color);
        let d = dirs.last();
        let r = ray(from, d.0 as int, d.1 as int);
        lemma_hop_captures(cells, from, r, color);
        Seq::filter_distributes_over_add(
            dragon_dirs(cells, from, dirs.drop_last(), color, false),
            hop_moves(cells, from, r, color, false),
            p,
        );
    }
}

proof fn lemma_leap_captures(cells: Seq<Cell>, from: int, off: (i8, i8), color: Color, jump: bool)
    ensures
        leap_moves(cells, from, off, color, true, jump) == leap_moves(
            cells,
            from,
            off,
            color,
            false,
            jump,
        ).filter(is_capture()),
{
    let p = is_capture();
    lemma_filter_empty(p);
    let s = leap_moves(cells, from, off, color, false, jump);
    if s.len() == 1 {
        lemma_filter_single(s[0], p);
        assert(s == seq![s[0]]);
    }
}

proof fn lemma_leaper_captures(cells: Seq<Cell>, from: int, offs: Seq<(i8, i8)>, color: Color, jump: bool)
    ensures
        leaper_moves(cells, from, offs, color, true, jump) == leaper_moves(
            cells,
            from,
            offs,
            color,
            false,
            jump,
        ).filter(is_capture()),
    decreases offs.len(),
{
    let p = is_capture();
    if offs.len() == 0 {
        lemma_filter_empty(p);
    } else {
        lemma_leaper_captures(cells, from, offs.drop_last(), color, jump);
        lemma_leap_captures(cells, from, offs.last(), color, jump);
        Seq::filter_distributes_over_add(
            leaper_moves(cells, from, offs.drop_last(), color, false, jump),
            leap_moves(cells, from, offs.last(), color, false, jump),
            p,
        );
    }
}

proof fn lemma_paladin_jump_captures(cells: Seq<Cell>, from: int, offs: Seq<(i8, i8)>, color: Color)
    ensures
        paladin_jumps(cells, from, offs, color, true) == paladin_jumps(
            cells,
            from,
            offs,
            color,
            false,
        ).filter(is_capture()),
    decreases offs.len(),
{
    let p = is_capture();
    lemma_filter_empty(p);
    if offs.len() > 0 {
        lemma_paladin_jump_captures(cells, from, offs.drop_last(), color);
        let s = paladin_jump_moves(cells, from, offs.last(), color, false);
        if s.len() == 1 {
            lemma_filter_single(s[0], p);
            assert(s == seq![s[0]]);
        }
        Seq::filter_distributes_over_add(
            paladin_jumps(cells, from, offs.drop_last(), color, false),
            s,
            p,
        );
    }
}

proof fn lemma_knight_captures(cells: Seq<Cell>, from: int, color: Color)
    ensures
        crate::pieces::knight_moves(cells, from, color, true) == crate::pieces::knight_moves(
            cells,
            from,
            color,
            false,
        ).filter(is_capture()),
{
    let p = is_capture();
    let q = knight_quiet_moves(cells, from, color, false);
    let a = knight_capture(cells, from, color, -1);
    let b = knight_capture(cells, from, color, 1);
    reveal_with_fuel(Seq::filter, 3);
    assert(q.filter(p) =~= Seq::<Move>::empty()) by {
        if q.len() == 2 {
            assert(q.drop_last() =~= seq![q[0]]);
            assert(seq![q[0]].drop_last() =~= Seq::<Move>::empty());
        } else if q.len() == 1 {
            assert(q.drop_last() =~= Seq::<Move>::empty());
        }
    }
    lemma_filter_all_captures(a);
    lemma_filter_all_captures(b);
    Seq::filter_distributes_over_add(q, a, p);
    Seq::filter_distributes_over_add(q + a, b, p);
    assert(knight_quiet_moves(cells, from, color, true) =~= Seq::<Move>::empty());
    assert(Seq::<Move>::empty() + a + b =~= a + b);
}

/// Generating only the captures of a piece gives exactly the captures among
/// all its moves, in the same order.
pub proof fn lemma_moves_for_captures(cells: Seq<Cell>, sq: int)
    ensures
        moves_for(cells, sq, true) == moves_for(cells, sq, false).filter(is_capture()),
{
    let p = is_capture();
    match cells[sq] {
        None => {
            lemma_filter_empty(p);
        },
        Some((c, k)) => {
            match k {
                crate::types::PieceKind::Emperor => {
                    lemma_leaper_captures(cells, sq, ADJACENT@, c, true);
                },
                crate::types::PieceKind::Empress => {
                    lemma_sliding_captures(cells, sq, ADJACENT@, c, false);
                },
                crate::types::PieceKind::Priest => {
                    lemma_sliding_captures(cells, sq, DIAGONALS@, c, false);
                    lemma_leaper_captures(cells, sq, KNIGHT_JUMPS@, c, true);
                    Seq::filter_distributes_over_add(
                        sliding_moves(cells, sq, DIAGONALS@, c, false, false),
                        leaper_moves(cells, sq, KNIGHT_JUMPS@, c, false, true),
                        p,
                    );
                },
                crate::types::PieceKind::Paladin => {
                    lemma_leaper_captures(cells, sq, ADJACENT@, c, true);
                    lemma_paladin_jump_captures(cells, sq, PALADIN_JUMPS@, c);
                    Seq::filter_distributes_over_add(
                        leaper_moves(cells, sq, ADJACENT@, c, false, true),
                        paladin_jumps(cells, sq, PALADIN_JUMPS@, c, false),
                        p,
                    );
                },
                crate::types::PieceKind::Dragon => {
                    lemma_dragon_captures(cells, sq, ORTHOGONALS@, c);
                },
                crate::types::PieceKind::Knight => {
                    lemma_knight_captures(cells, sq, c);
                },
            }
        },
    }
}

proof fn lemma_side_captures(cells: Seq<Cell>, color: Color, n: nat)
    ensures
        moves_of_side(cells, color, true, n) == moves_of_side(cells, color, false, n).filter(
            is_capture(),
        ),
    decreases n,
{
    let p = is_capture();
    if n == 0 {
        lemma_filter_empty(p);
    } else {
        lemma_side_captures(cells, color, (n - 1) as nat);
        lemma_moves_for_captures(cells, n - 1);
        lemma_filter_empty(p);
        let tail = if crate::board::owned_by(cells[n - 1], color) {
            moves_for(cells, n - 1, false)
        } else {
            Seq::<Move>::empty()
        };
        Seq::filter_distributes_over_add(moves_of_side(cells, color, false, (n - 1) as nat), tail, p);
    }
}

/// Generating only captures gives exactly the captures among all pseudo-legal
/// moves, in the same order.
pub proof fn lemma_captures_are_filtered_moves(cells: Seq<Cell>, color: Color)
    ensures
        pseudo_captures(cells, color) == pseudo_moves(cells, color).filter(is_capture()),
{
    lemma_side_captures(cells, color, 64);
}

proof fn lemma_filter_commute<A>(s: Seq<A>, p: spec_fn(A) -> bool, q: spec_fn(A) -> bool)
    ensures
        s.filter(p).filter(q) == s.filter(q).filter(p),
    decreases s.len(),
{
    reveal_with_fuel(Seq::filter, 2);
    if s.len() > 0 {
        lemma_filter_commute(s.drop_last(), p, q);
        let x = s.last();
        let a = s.drop_last().filter(p);
        let b = s.drop_last().filter(q);
        if p(x) {
            assert(a.push(x).drop_last() =~= a);
        }
        if q(x) {
            assert(b.push(x).drop_last() =~= b);
        }
        if p(x) && q(x) {
            assert(a.filter(q).push(x).drop_last() =~= a.filter(q));
            assert(b.filter(p).push(x).drop_last() =~= b.filter(p));
        }
    }
}

/// The legal captures are exactly the captures among the legal moves, in order.
pub proof fn lemma_legal_captures_are_filtered_legal_moves(cells: Seq<Cell>, color: Color)
    ensures
        legal_captures(cells, color) == legal_moves(cells, color).filter(is_capture()),
{
    lemma_captures_are_filtered_moves(cells, color);
    lemma_filter_commute(pseudo_moves(cells, color), is_capture(), keeps_king_safe(cells, color));
}

/// Every legal move is a pseudo-legal move of a piece of the mover that
/// lands on an empty or enemy square (a capture exactly in the latter case),
/// and after it the mover's Emperor is not in check.
pub proof fn lemma_legal_moves_are_safe(cells: Seq<Cell>, color: Color, i: int)
    requires
        0 <= i < legal_moves(cells, color).len(),
    ensures
        pseudo_moves(cells, color).contains(legal_moves(cells, color)[i]),
        side_move(cells, color, legal_moves(cells, color)[i]),
        !in_check(
            cells_after_move(
                cells,
                legal_moves(cells, color)[i].from as int,
                legal_moves(cells, color)[i].to as int,
            ),
            color,
        ),
{
    let s = pseudo_moves(cells, color);
    let p = keeps_king_safe(cells, color);
    let m = legal_moves(cells, color)[i];
    broadcast use vstd::seq_lib::group_filter_ensures;
    assert(p(m));
    assert(s.filter(p).contains(m));
    s.lemma_filter_contains_rev(p, m);
    lemma_moves_of_side(cells, color, false, 64);
    let j = choose|j: int| 0 <= j < s.len() && s[j] == m;
    assert(side_move(cells, color, s[j]));
}

/// Every pseudo-legal move of `color` that keeps its Emperor out of check is
/// among the legal moves.
pub proof fn lemma_safe_moves_are_legal(cells: Seq<Cell>, color: Color, m: Move)
    requires
        pseudo_moves(cells, color).contains(m),
        !in_check(cells_after_move(cells, m.from as int, m.to as int), color),
    ensures
        legal_moves(cells, color).contains(m),
{
    broadcast use vstd::seq_lib::group_filter_ensures;
    let s = pseudo_moves(cells, color);
    let j = choose|j: int| 0 <= j < s.len() && s[j] == m;
    assert(keeps_king_safe(cells, color)(s[j]));
}

/// Passing the turn twice gives back the side to move and the hash.
pub proof fn lemma_null_move_twice(zobrist: u64, turn: Color)
    ensures
        (zobrist ^ ZOBRIST_SIDE) ^ ZOBRIST_SIDE == zobrist,
        turn.spec_opposite().spec_opposite() == turn,
{
    crate::zobrist::lemma_xor_twice(zobrist, ZOBRIST_SIDE);
}

/// `opposite` swaps the colours and negates the multiplier.
pub proof fn lemma_opposite(c: Color)
    ensures
        c.spec_opposite() != c,
        c.spec_opposite().spec_opposite() == c,
        c.spec_opposite().spec_multiplier() == -c.spec_multiplier(),
{
}

/// Splitting a square into file and rank and joining them again gives the
/// square back.
pub proof fn lemma_coord_round_trip(sq: int)
    requires
        0 <= sq < 64,
    ensures
        crate::board::on_board(sq % 8, sq / 8),
        sq_of(sq % 8, sq / 8) == sq,
{
}

} // verus!
