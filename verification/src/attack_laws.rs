//! Attacks agree with move generation: a piece attacks a square holding an
//! enemy piece exactly when one of its generated moves lands there, so being
//! in check means that some opponent move could take the Emperor.

use vstd::prelude::*;
use crate::board::{
    abs, attacked_from, attacks_square, file_of, in_check, king_from, king_square, line_dist,
    moves_for, on_board, owned_by, path_empty, path_passable, rank_of, sign, sq_of, square_attacked,
    step, toward, Cell,
};
use crate::move_facts::{lemma_moves_for, lemma_ray_on_board, lemma_slide, sound_move, targets_on_board};
use crate::movegen::{direction_moves, sliding_moves};
use crate::pieces::{
    dragon_dirs, forward, hop_moves, knight_capture, knight_quiet_moves, paladin_jump_moves,
    paladin_jumps, ADJACENT, DIAGONALS, KNIGHT_JUMPS, ORTHOGONALS, PALADIN_JUMPS,
};
use crate::rays::{is_direction, lemma_ray_facts, leg_blocked, leap_moves, leaper_moves, mv, ray, ray_len, slide_moves};
use crate::types::{Color, Move, PieceKind};

verus! {

/// Some move of `ms` ends on `t`.
pub open spec fn reaches(ms: Seq<Move>, t: int) -> bool {
    exists|i: int| 0 <= i < ms.len() && (#[trigger] ms[i]).to as int == t
}

/// The square holds a piece of a colour other than `color`.
pub open spec fn enemy_of(cell: Cell, color: Color) -> bool {
    cell matches Some((pc, _)) && pc != color
}

proof fn lemma_reaches_add(a: Seq<Move>, b: Seq<Move>, t: int)
    ensures
        reaches(a + b, t) <==> reaches(a, t) || reaches(b, t),
{
    if reaches(a + b, t) {
        let i = choose|i: int| 0 <= i < (a + b).len() && (#[trigger] (a + b)[i]).to as int == t;
        if i < a.len() {
            assert(a[i] == (a + b)[i]);
        } else {
            assert(b[i - a.len()] == (a + b)[i]);
        }
    }
    if reaches(a, t) {
        let i = choose|i: int| 0 <= i < a.len() && (#[trigger] a[i]).to as int == t;
        assert((a + b)[i] == a[i]);
    }
    if reaches(b, t) {
        let i = choose|i: int| 0 <= i < b.len() && (#[trigger] b[i]).to as int == t;
        assert((a + b)[i + a.len()] == b[i]);
    }
}

proof fn lemma_reaches_single(m: Move, t: int)
    ensures
        reaches(seq![m], t) <==> m.to as int == t,
{
    if m.to as int == t {
        assert(seq![m][0] == m);
    }
}

/// The square and coordinates of a square on the board agree.
proof fn lemma_coords(f: int, r: int)
    requires
        on_board(f, r),
    ensures
        0 <= sq_of(f, r) < 64,
        file_of(sq_of(f, r)) == f,
        rank_of(sq_of(f, r)) == r,
{
}

proof fn lemma_square(t: int)
    requires
        0 <= t < 64,
    ensures
        on_board(file_of(t), rank_of(t)),
        sq_of(file_of(t), rank_of(t)) == t,
{
}

/// A leap of `off` from `from` lands on `t`.
pub open spec fn leap_hits(from: int, off: (i8, i8), t: int) -> bool {
    on_board(file_of(from) + off.0, rank_of(from) + off.1) && sq_of(
        file_of(from) + off.0,
        rank_of(from) + off.1,
    ) == t
}

proof fn lemma_leap_reaches(cells: Seq<Cell>, from: int, off: (i8, i8), color: Color, t: int)
    requires
        0 <= t < 64,
        enemy_of(cells[t], color),
    ensures
        reaches(leap_moves(cells, from, off, color, false, true), t) <==> leap_hits(from, off, t),
{
    let f = file_of(from);
    let r = rank_of(from);
    let to = sq_of(f + off.0, r + off.1);
    if on_board(f + off.0, r + off.1) {
        lemma_coords(f + off.0, r + off.1);
        let s = leap_moves(cells, from, off, color, false, true);
        if to == t {
            assert(s == seq![mv(from, to, true)]);
            lemma_reaches_single(mv(from, to, true), t);
        } else if s.len() == 1 {
            lemma_reaches_single(s[0], t);
            assert(s == seq![s[0]]);
        }
    }
}

proof fn lemma_leaper_reaches(cells: Seq<Cell>, from: int, offs: Seq<(i8, i8)>, color: Color, t: int)
    requires
        0 <= t < 64,
        enemy_of(cells[t], color),
    ensures
        reaches(leaper_moves(cells, from, offs, color, false, true), t) <==> exists|j: int|
            0 <= j < offs.len() && #[trigger] leap_hits(from, offs[j], t),
    decreases offs.len(),
{
    if offs.len() > 0 {
        let init = offs.drop_last();
        lemma_leaper_reaches(cells, from, init, color, t);
        lemma_leap_reaches(cells, from, offs.last(), color, t);
        lemma_reaches_add(
            leaper_moves(cells, from, init, color, false, true),
            leap_moves(cells, from, offs.last(), color, false, true),
            t,
        );
        if exists|j: int| 0 <= j < offs.len() && #[trigger] leap_hits(from, offs[j], t) {
            let j = choose|j: int| 0 <= j < offs.len() && #[trigger] leap_hits(from, offs[j], t);
            if j < offs.len() - 1 {
                assert(init[j] == offs[j]);
            }
        }
        if exists|j: int| 0 <= j < init.len() && #[trigger] leap_hits(from, init[j], t) {
            let j = choose|j: int| 0 <= j < init.len() && #[trigger] leap_hits(from, init[j], t);
            assert(init[j] == offs[j]);
        }
    }
}

/// `t` is one king step away from `from`.
pub open spec fn adjacent(from: int, t: int) -> bool {
    from != t && abs(file_of(t) - file_of(from)) <= 1 && abs(rank_of(t) - rank_of(from)) <= 1
}

proof fn lemma_adjacent_hits(from: int, t: int)
    requires
        0 <= from < 64,
        0 <= t < 64,
    ensures
        (exists|j: int| 0 <= j < ADJACENT@.len() && #[trigger] leap_hits(from, ADJACENT@[j], t))
            <==> adjacent(from, t),
{
    let f = file_of(from);
    let r = rank_of(from);
    let df = file_of(t) - f;
    let dr = rank_of(t) - r;
    lemma_square(t);
    lemma_square(from);
    assert(ADJACENT@ == seq![(-1i8, -1i8), (-1i8, 0i8), (-1i8, 1i8), (0i8, -1i8), (0i8, 1i8), (1i8, -1i8), (1i8, 0i8), (1i8, 1i8)]);
    if exists|j: int| 0 <= j < ADJACENT@.len() && #[trigger] leap_hits(from, ADJACENT@[j], t) {
        let j = choose|j: int| 0 <= j < ADJACENT@.len() && #[trigger] leap_hits(from, ADJACENT@[j], t);
        let off = ADJACENT@[j];
        lemma_coords(f + off.0, r + off.1);
    }
    if adjacent(from, t) {
        let j: int = (df + 1) * 3 + (dr + 1) - (if df * 3 + dr > 0 { 1int } else { 0int });
        assert(0 <= j < 8);
        assert(ADJACENT@[j] == (df as i8, dr as i8));
        assert(leap_hits(from, ADJACENT@[j], t));
    }
}

/// Every square of `targets` before position `i` is empty.
pub open spec fn clear_before(cells: Seq<Cell>, targets: Seq<int>, i: int) -> bool {
    forall|j: int| 0 <= j < i ==> (#[trigger] cells[targets[j]]) is None
}

proof fn lemma_slide_reaches(cells: Seq<Cell>, from: int, targets: Seq<int>, color: Color, t: int)
    requires
        0 <= t < 64,
        !owned_by(cells[t], color),
        targets_on_board(targets),
    ensures
        reaches(slide_moves(cells, from, targets, color, false, false), t) <==> exists|i: int|
            0 <= i < targets.len() && targets[i] == t && #[trigger] clear_before(cells, targets, i),
    decreases targets.len(),
{
    if targets.len() > 0 {
        let t0 = targets[0];
        let rest = targets.drop_first();
        assert(targets_on_board(rest)) by {
            assert forall|i: int| 0 <= i < rest.len() implies 0 <= #[trigger] rest[i] < 64 by {
                assert(rest[i] == targets[i + 1]);
            }
        }
        lemma_slide_reaches(cells, from, rest, color, t);
        let rm = slide_moves(cells, from, rest, color, false, false);
        match cells[t0] {
            None => {
                lemma_reaches_add(seq![mv(from, t0, false)], rm, t);
                lemma_reaches_single(mv(from, t0, false), t);
                if t0 == t {
                    assert(clear_before(cells, targets, 0));
                }
                if exists|i: int| 0 <= i < targets.len() && targets[i] == t && #[trigger] clear_before(cells, targets, i) {
                    let i = choose|i: int| 0 <= i < targets.len() && targets[i] == t && #[trigger] clear_before(cells, targets, i);
                    if i == 0 {
                        assert(t0 == t);
                    } else {
                    assert(rest[i - 1] == t);
                    assert forall|j: int| 0 <= j < i - 1 implies (#[trigger] cells[rest[j]]) is None by {
                        assert(rest[j] == targets[j + 1]);
                    }
                    assert(clear_before(cells, rest, i - 1));
                    }
                }
                if exists|i: int| 0 <= i < rest.len() && rest[i] == t && #[trigger] clear_before(cells, rest, i) {
                    let i = choose|i: int| 0 <= i < rest.len() && rest[i] == t && #[trigger] clear_before(cells, rest, i);
                    assert(targets[i + 1] == t);
                    assert forall|j: int| 0 <= j < i + 1 implies (#[trigger] cells[targets[j]]) is None by {
                        if j > 0 {
                            assert(targets[j] == rest[j - 1]);
                        }
                    }
                    assert(clear_before(cells, targets, i + 1));
                }
            },
            Some((pc, _)) => {
                let s = slide_moves(cells, from, targets, color, false, false);
                if pc != color {
                    assert(s == seq![mv(from, t0, true)]);
                    lemma_reaches_single(mv(from, t0, true), t);
                } else {
                    assert(s.len() == 0);
                }
                if t0 == t {
                    assert(clear_before(cells, targets, 0));
                }
                if exists|i: int| 0 <= i < targets.len() && targets[i] == t && #[trigger] clear_before(cells, targets, i) {
                    let i = choose|i: int| 0 <= i < targets.len() && targets[i] == t && #[trigger] clear_before(cells, targets, i);
                    if i > 0 {
                        assert(cells[targets[0]] is None);
                    }
                }
            },
        }
    }
}

proof fn lemma_slide_jump_reaches(cells: Seq<Cell>, from: int, targets: Seq<int>, color: Color, t: int)
    requires
        0 <= t < 64,
        !owned_by(cells[t], color),
        targets_on_board(targets),
    ensures
        reaches(slide_moves(cells, from, targets, color, false, true), t) <==> targets.contains(t),
    decreases targets.len(),
{
    if targets.len() > 0 {
        let t0 = targets[0];
        let rest = targets.drop_first();
        assert(targets_on_board(rest)) by {
            assert forall|i: int| 0 <= i < rest.len() implies 0 <= #[trigger] rest[i] < 64 by {
                assert(rest[i] == targets[i + 1]);
            }
        }
        lemma_slide_jump_reaches(cells, from, rest, color, t);
        let rm = slide_moves(cells, from, rest, color, false, true);
        match cells[t0] {
            None => {
                lemma_reaches_add(seq![mv(from, t0, false)], rm, t);
                lemma_reaches_single(mv(from, t0, false), t);
            },
            Some((pc, _)) => {
                if pc != color {
                    lemma_reaches_add(seq![mv(from, t0, true)], rm, t);
                    lemma_reaches_single(mv(from, t0, true), t);
                } else {
                    assert(slide_moves(cells, from, targets, color, false, true) =~= rm);
                }
            },
        }
        if targets.contains(t) {
            let i = choose|i: int| 0 <= i < targets.len() && targets[i] == t;
            if i > 0 {
                assert(rest[i - 1] == t);
            }
        }
        if rest.contains(t) {
            let i = choose|i: int| 0 <= i < rest.len() && rest[i] == t;
            assert(targets[i + 1] == t);
        }
    }
}

/// `t` lies along direction `(df, dr)` from `from`, at least one step away.
pub open spec fn along(from: int, t: int, df: int, dr: int) -> bool {
    let n = line_dist(from, t);
    &&& n >= 1
    &&& file_of(t) == step(file_of(from), n, df)
    &&& rank_of(t) == step(rank_of(from), n, dr)
}

proof fn lemma_ray_position(from: int, df: int, dr: int, t: int)
    requires
        0 <= from < 64,
        0 <= t < 64,
        is_direction(df, dr),
    ensures
        (exists|i: int| 0 <= i < ray_len(from, df, dr) && #[trigger] ray(from, df, dr)[i] == t)
            <==> along(from, t, df, dr),
        along(from, t, df, dr) ==> {
            &&& line_dist(from, t) <= ray_len(from, df, dr)
            &&& ray(from, df, dr)[line_dist(from, t) - 1] == t
            &&& forall|k: int|
                1 <= k <= line_dist(from, t) ==> #[trigger] toward(from, t, k) == ray(from, df, dr)[k - 1]
        },
        forall|i: int|
            0 <= i < ray_len(from, df, dr) && #[trigger] ray(from, df, dr)[i] == t ==> i == line_dist(from, t) - 1,
{
    let f = file_of(from);
    let r = rank_of(from);
    lemma_ray_facts(from, df, dr);
    lemma_square(t);
    assert forall|i: int| 0 <= i < ray_len(from, df, dr) && #[trigger] ray(from, df, dr)[i] == t implies
        along(from, t, df, dr) && i == line_dist(from, t) - 1 by {
        assert(on_board(step(f, i + 1, df), step(r, i + 1, dr)));
        lemma_coords(step(f, i + 1, df), step(r, i + 1, dr));
    }
    if along(from, t, df, dr) {
        let n = line_dist(from, t);
        assert(on_board(step(f, n, df), step(r, n, dr)));
        assert(n <= ray_len(from, df, dr));
        assert(ray(from, df, dr)[n - 1] == t);
        assert forall|k: int| 1 <= k <= n implies #[trigger] toward(from, t, k) == ray(from, df, dr)[k - 1] by {
            assert(step(f, k, file_of(t) - f) == step(f, k, df));
            assert(step(r, k, rank_of(t) - r) == step(r, k, dr));
        }
    }
}

/// A slide along direction `d` from `from` reaches `t` over empty squares.
pub open spec fn dir_hits(cells: Seq<Cell>, from: int, d: (i8, i8), t: int) -> bool {
    is_direction(d.0 as int, d.1 as int) && along(from, t, d.0 as int, d.1 as int) && path_empty(cells, from, t)
}

proof fn lemma_direction_reaches(cells: Seq<Cell>, from: int, d: (i8, i8), color: Color, t: int)
    requires
        0 <= from < 64,
        0 <= t < 64,
        !owned_by(cells[t], color),
    ensures
        reaches(direction_moves(cells, from, d, color, false, false), t) <==> dir_hits(cells, from, d, t),
{
    let df = d.0 as int;
    let dr = d.1 as int;
    if is_direction(df, dr) {
        let rs = ray(from, df, dr);
        lemma_ray_on_board(from, df, dr);
        lemma_slide_reaches(cells, from, rs, color, t);
        lemma_ray_position(from, df, dr, t);
        if exists|i: int| 0 <= i < rs.len() && rs[i] == t && #[trigger] clear_before(cells, rs, i) {
            let i = choose|i: int| 0 <= i < rs.len() && rs[i] == t && #[trigger] clear_before(cells, rs, i);
            assert(i == line_dist(from, t) - 1);
            assert forall|k: int| 1 <= k < line_dist(from, t) implies (#[trigger] cells[toward(from, t, k)]) is None by {
                assert(toward(from, t, k) == rs[k - 1]);
                assert(cells[rs[k - 1]] is None);
            }
        }
        if dir_hits(cells, from, d, t) {
            let n = line_dist(from, t);
            assert forall|j: int| 0 <= j < n - 1 implies (#[trigger] cells[rs[j]]) is None by {
                assert(toward(from, t, j + 1) == rs[j]);
                assert(cells[toward(from, t, j + 1)] is None);
            }
            assert(clear_before(cells, rs, n - 1));
        }
    }
}

proof fn lemma_sliding_reaches(cells: Seq<Cell>, from: int, dirs: Seq<(i8, i8)>, color: Color, t: int)
    requires
        0 <= from < 64,
        0 <= t < 64,
        enemy_of(cells[t], color),
    ensures
        reaches(sliding_moves(cells, from, dirs, color, false, false), t) <==> exists|j: int|
            0 <= j < dirs.len() && #[trigger] dir_hits(cells, from, dirs[j], t),
    decreases dirs.len(),
{
    if dirs.len() > 0 {
        let init = dirs.drop_last();
        lemma_sliding_reaches(cells, from, init, color, t);
        lemma_direction_reaches(cells, from, dirs.last(), color, t);
        lemma_reaches_add(
            sliding_moves(cells, from, init, color, false, false),
            direction_moves(cells, from, dirs.last(), color, false, false),
            t,
        );
        if exists|j: int| 0 <= j < dirs.len() && #[trigger] dir_hits(cells, from, dirs[j], t) {
            let j = choose|j: int| 0 <= j < dirs.len() && #[trigger] dir_hits(cells, from, dirs[j], t);
            if j < dirs.len() - 1 {
                assert(init[j] == dirs[j]);
            }
        }
        if exists|j: int| 0 <= j < init.len() && #[trigger] dir_hits(cells, from, init[j], t) {
            let j = choose|j: int| 0 <= j < init.len() && #[trigger] dir_hits(cells, from, init[j], t);
            assert(init[j] == dirs[j]);
        }
    }
}

/// `t` differs from `from` and lies on a rank, file or diagonal through it.
pub open spec fn on_line(from: int, t: int) -> bool {
    let df = file_of(t) - file_of(from);
    let dr = rank_of(t) - rank_of(from);
    from != t && (df == 0 || dr == 0 || abs(df) == abs(dr))
}

proof fn lemma_along(from: int, t: int, a: int, b: int)
    requires
        0 <= from < 64,
        0 <= t < 64,
        is_direction(a, b),
    ensures
        along(from, t, a, b) <==> on_line(from, t) && sign(file_of(t) - file_of(from)) == a && sign(
            rank_of(t) - rank_of(from),
        ) == b,
{
    lemma_square(t);
    lemma_square(from);
}

proof fn lemma_queen_dirs(cells: Seq<Cell>, from: int, t: int)
    requires
        0 <= from < 64,
        0 <= t < 64,
    ensures
        (exists|j: int| 0 <= j < ADJACENT@.len() && #[trigger] dir_hits(cells, from, ADJACENT@[j], t))
            <==> on_line(from, t) && path_empty(cells, from, t),
{
    assert(ADJACENT@ == seq![(-1i8, -1i8), (-1i8, 0i8), (-1i8, 1i8), (0i8, -1i8), (0i8, 1i8), (1i8, -1i8), (1i8, 0i8), (1i8, 1i8)]);
    if exists|j: int| 0 <= j < ADJACENT@.len() && #[trigger] dir_hits(cells, from, ADJACENT@[j], t) {
        let j = choose|j: int| 0 <= j < ADJACENT@.len() && #[trigger] dir_hits(cells, from, ADJACENT@[j], t);
        lemma_along(from, t, ADJACENT@[j].0 as int, ADJACENT@[j].1 as int);
    }
    if on_line(from, t) && path_empty(cells, from, t) {
        let a = sign(file_of(t) - file_of(from));
        let b = sign(rank_of(t) - rank_of(from));
        lemma_square(t);
        lemma_square(from);
        let j: int = (a + 1) * 3 + (b + 1) - (if a * 3 + b > 0 { 1int } else { 0int });
        assert(0 <= j < 8);
        assert(ADJACENT@[j] == (a as i8, b as i8));
        lemma_along(from, t, a, b);
        assert(dir_hits(cells, from, ADJACENT@[j], t));
    }
}

proof fn lemma_diagonal_dirs(cells: Seq<Cell>, from: int, t: int)
    requires
        0 <= from < 64,
        0 <= t < 64,
    ensures
        (exists|j: int| 0 <= j < DIAGONALS@.len() && #[trigger] dir_hits(cells, from, DIAGONALS@[j], t))
            <==> from != t && abs(file_of(t) - file_of(from)) == abs(rank_of(t) - rank_of(from))
            && path_empty(cells, from, t),
{
    assert(DIAGONALS@ == seq![(-1i8, -1i8), (-1i8, 1i8), (1i8, -1i8), (1i8, 1i8)]);
    lemma_square(t);
    lemma_square(from);
    if exists|j: int| 0 <= j < DIAGONALS@.len() && #[trigger] dir_hits(cells, from, DIAGONALS@[j], t) {
        let j = choose|j: int| 0 <= j < DIAGONALS@.len() && #[trigger] dir_hits(cells, from, DIAGONALS@[j], t);
        lemma_along(from, t, DIAGONALS@[j].0 as int, DIAGONALS@[j].1 as int);
    }
    if from != t && abs(file_of(t) - file_of(from)) == abs(rank_of(t) - rank_of(from)) && path_empty(cells, from, t) {
        let a = sign(file_of(t) - file_of(from));
        let b = sign(rank_of(t) - rank_of(from));
        let j: int = (a + 1) + (b + 1) / 2;
        assert(0 <= j < 4);
        assert(DIAGONALS@[j] == (a as i8, b as i8));
        lemma_along(from, t, a, b);
        assert(dir_hits(cells, from, DIAGONALS@[j], t));
    }
}

/// No square of `targets` before position `i` holds an enemy of `color`.
pub open spec fn passable_before(cells: Seq<Cell>, targets: Seq<int>, i: int, color: Color) -> bool {
    forall|j: int| 0 <= j < i ==> !enemy_of(#[trigger] cells[targets[j]], color)
}

proof fn lemma_hop_reaches(cells: Seq<Cell>, from: int, targets: Seq<int>, color: Color, t: int)
    requires
        0 <= t < 64,
        enemy_of(cells[t], color),
        targets_on_board(targets),
    ensures
        reaches(hop_moves(cells, from, targets, color, false), t) <==> exists|i: int|
            0 <= i < targets.len() && targets[i] == t && #[trigger] passable_before(cells, targets, i, color),
    decreases targets.len(),
{
    if targets.len() > 0 {
        let t0 = targets[0];
        let rest = targets.drop_first();
        assert(targets_on_board(rest)) by {
            assert forall|i: int| 0 <= i < rest.len() implies 0 <= #[trigger] rest[i] < 64 by {
                assert(rest[i] == targets[i + 1]);
            }
        }
        lemma_slide_reaches(cells, from, rest, color, t);
        lemma_hop_reaches(cells, from, rest, color, t);
        let rm = hop_moves(cells, from, rest, color, false);
        if enemy_of(cells[t0], color) {
            assert(hop_moves(cells, from, targets, color, false) == seq![mv(from, t0, true)]);
            lemma_reaches_single(mv(from, t0, true), t);
            if t0 == t {
                assert(passable_before(cells, targets, 0, color));
            }
            if exists|i: int| 0 <= i < targets.len() && targets[i] == t && #[trigger] passable_before(cells, targets, i, color) {
                let i = choose|i: int| 0 <= i < targets.len() && targets[i] == t && #[trigger] passable_before(cells, targets, i, color);
                if i > 0 {
                    assert(!enemy_of(cells[targets[0]], color));
                }
            }
        } else {
            if cells[t0] is None {
                lemma_reaches_add(seq![mv(from, t0, false)], rm, t);
                lemma_reaches_single(mv(from, t0, false), t);
            } else {
                assert(hop_moves(cells, from, targets, color, false) == rm);
            }
            if exists|i: int| 0 <= i < targets.len() && targets[i] == t && #[trigger] passable_before(cells, targets, i, color) {
                let i = choose|i: int| 0 <= i < targets.len() && targets[i] == t && #[trigger] passable_before(cells, targets, i, color);
                assert(i != 0);
                assert(rest[i - 1] == t);
                assert forall|j: int| 0 <= j < i - 1 implies !enemy_of(#[trigger] cells[rest[j]], color) by {
                    assert(rest[j] == targets[j + 1]);
                }
                assert(passable_before(cells, rest, i - 1, color));
            }
            if exists|i: int| 0 <= i < rest.len() && rest[i] == t && #[trigger] passable_before(cells, rest, i, color) {
                let i = choose|i: int| 0 <= i < rest.len() && rest[i] == t && #[trigger] passable_before(cells, rest, i, color);
                assert(targets[i + 1] == t);
                assert forall|j: int| 0 <= j < i + 1 implies !enemy_of(#[trigger] cells[targets[j]], color) by {
                    if j > 0 {
                        assert(targets[j] == rest[j - 1]);
                    }
                }
                assert(passable_before(cells, targets, i + 1, color));
            }
        }
    }
}

proof fn lemma_enemy_is_opponent(cell: Cell, color: Color)
    ensures
        enemy_of(cell, color) <==> owned_by(cell, color.spec_opposite()),
{
}

/// A Dragon walk along direction `d` from `from` reaches `t` passing no enemy.
pub open spec fn dragon_hits(cells: Seq<Cell>, from: int, d: (i8, i8), t: int, color: Color) -> bool {
    along(from, t, d.0 as int, d.1 as int) && path_passable(cells, from, t, color)
}

proof fn lemma_dragon_dir_reaches(cells: Seq<Cell>, from: int, d: (i8, i8), color: Color, t: int)
    requires
        0 <= from < 64,
        0 <= t < 64,
        enemy_of(cells[t], color),
        is_direction(d.0 as int, d.1 as int),
    ensures
        reaches(hop_moves(cells, from, ray(from, d.0 as int, d.1 as int), color, false), t)
            <==> dragon_hits(cells, from, d, t, color),
{
    let df = d.0 as int;
    let dr = d.1 as int;
    let rs = ray(from, df, dr);
    lemma_ray_on_board(from, df, dr);
    lemma_hop_reaches(cells, from, rs, color, t);
    lemma_ray_position(from, df, dr, t);
    if exists|i: int| 0 <= i < rs.len() && rs[i] == t && #[trigger] passable_before(cells, rs, i, color) {
        let i = choose|i: int| 0 <= i < rs.len() && rs[i] == t && #[trigger] passable_before(cells, rs, i, color);
        assert(i == line_dist(from, t) - 1);
        assert forall|k: int| 1 <= k < line_dist(from, t) implies !owned_by(
            #[trigger] cells[toward(from, t, k)],
            color.spec_opposite(),
        ) by {
            assert(toward(from, t, k) == rs[k - 1]);
            assert(!enemy_of(cells[rs[k - 1]], color));
            lemma_enemy_is_opponent(cells[rs[k - 1]], color);
        }
    }
    if dragon_hits(cells, from, d, t, color) {
        let n = line_dist(from, t);
        assert forall|j: int| 0 <= j < n - 1 implies !enemy_of(#[trigger] cells[rs[j]], color) by {
            assert(toward(from, t, j + 1) == rs[j]);
            lemma_enemy_is_opponent(cells[rs[j]], color);
        }
        assert(passable_before(cells, rs, n - 1, color));
    }
}

proof fn lemma_dragon_dirs_reaches(cells: Seq<Cell>, from: int, dirs: Seq<(i8, i8)>, color: Color, t: int)
    requires
        0 <= from < 64,
        0 <= t < 64,
        enemy_of(cells[t], color),
        forall|j: int| 0 <= j < dirs.len() ==> is_direction((#[trigger] dirs[j]).0 as int, dirs[j].1 as int),
    ensures
        reaches(dragon_dirs(cells, from, dirs, color, false), t) <==> exists|j: int|
            0 <= j < dirs.len() && #[trigger] dragon_hits(cells, from, dirs[j], t, color),
    decreases dirs.len(),
{
    if dirs.len() > 0 {
        let init = dirs.drop_last();
        assert forall|j: int| 0 <= j < init.len() implies is_direction((#[trigger] init[j]).0 as int, init[j].1 as int) by {
            assert(init[j] == dirs[j]);
        }
        lemma_dragon_dirs_reaches(cells, from, init, color, t);
        lemma_dragon_dir_reaches(cells, from, dirs.last(), color, t);
        lemma_reaches_add(
            dragon_dirs(cells, from, init, color, false),
            hop_moves(cells, from, ray(from, dirs.last().0 as int, dirs.last().1 as int), color, false),
            t,
        );
        if exists|j: int| 0 <= j < dirs.len() && #[trigger] dragon_hits(cells, from, dirs[j], t, color) {
            let j = choose|j: int| 0 <= j < dirs.len() && #[trigger] dragon_hits(cells, from, dirs[j], t, color);
            if j < dirs.len() - 1 {
                assert(init[j] == dirs[j]);
            }
        }
        if exists|j: int| 0 <= j < init.len() && #[trigger] dragon_hits(cells, from, init[j], t, color) {
            let j = choose|j: int| 0 <= j < init.len() && #[trigger] dragon_hits(cells, from, init[j], t, color);
            assert(init[j] == dirs[j]);
        }
    }
}

proof fn lemma_orthogonal_dirs(cells: Seq<Cell>, from: int, t: int, color: Color)
    requires
        0 <= from < 64,
        0 <= t < 64,
    ensures
        forall|j: int| 0 <= j < ORTHOGONALS@.len() ==> is_direction((#[trigger] ORTHOGONALS@[j]).0 as int, ORTHOGONALS@[j].1 as int),
        (exists|j: int| 0 <= j < ORTHOGONALS@.len() && #[trigger] dragon_hits(cells, from, ORTHOGONALS@[j], t, color))
            <==> from != t && (file_of(t) == file_of(from) || rank_of(t) == rank_of(from))
            && path_passable(cells, from, t, color),
{
    assert(ORTHOGONALS@ == seq![(1i8, 0i8), (-1i8, 0i8), (0i8, 1i8), (0i8, -1i8)]);
    lemma_square(t);
    lemma_square(from);
    if exists|j: int| 0 <= j < ORTHOGONALS@.len() && #[trigger] dragon_hits(cells, from, ORTHOGONALS@[j], t, color) {
        let j = choose|j: int| 0 <= j < ORTHOGONALS@.len() && #[trigger] dragon_hits(cells, from, ORTHOGONALS@[j], t, color);
        lemma_along(from, t, ORTHOGONALS@[j].0 as int, ORTHOGONALS@[j].1 as int);
    }
    if from != t && (file_of(t) == file_of(from) || rank_of(t) == rank_of(from)) && path_passable(cells, from, t, color) {
        let a = sign(file_of(t) - file_of(from));
        let b = sign(rank_of(t) - rank_of(from));
        let j: int = if a == 1 { 0int } else if a == -1 { 1int } else if b == 1 { 2int } else { 3int };
        assert(ORTHOGONALS@[j] == (a as i8, b as i8));
        lemma_along(from, t, a, b);
        assert(dragon_hits(cells, from, ORTHOGONALS@[j], t, color));
    }
}

proof fn lemma_knight_jump_hits(from: int, t: int)
    requires
        0 <= from < 64,
        0 <= t < 64,
    ensures
        (exists|j: int| 0 <= j < KNIGHT_JUMPS@.len() && #[trigger] leap_hits(from, KNIGHT_JUMPS@[j], t))
            <==> {
            let df = abs(file_of(t) - file_of(from));
            let dr = abs(rank_of(t) - rank_of(from));
            (df == 1 && dr == 2) || (df == 2 && dr == 1)
        },
{
    assert(KNIGHT_JUMPS@ == seq![(-2i8, 1i8), (-1i8, 2i8), (1i8, 2i8), (2i8, 1i8), (2i8, -1i8), (1i8, -2i8), (-1i8, -2i8), (-2i8, -1i8)]);
    let f = file_of(from);
    let r = rank_of(from);
    let df = file_of(t) - f;
    let dr = rank_of(t) - r;
    lemma_square(t);
    lemma_square(from);
    if exists|j: int| 0 <= j < KNIGHT_JUMPS@.len() && #[trigger] leap_hits(from, KNIGHT_JUMPS@[j], t) {
        let j = choose|j: int| 0 <= j < KNIGHT_JUMPS@.len() && #[trigger] leap_hits(from, KNIGHT_JUMPS@[j], t);
        let off = KNIGHT_JUMPS@[j];
        lemma_coords(f + off.0, r + off.1);
    }
    if (abs(df) == 1 && abs(dr) == 2) || (abs(df) == 2 && abs(dr) == 1) {
        let j: int = if df == -2 && dr == 1 {
            0
        } else if df == -1 && dr == 2 {
            1
        } else if df == 1 && dr == 2 {
            2
        } else if df == 2 && dr == 1 {
            3
        } else if df == 2 && dr == -1 {
            4
        } else if df == 1 && dr == -2 {
            5
        } else if df == -1 && dr == -2 {
            6
        } else {
            7
        };
        assert(KNIGHT_JUMPS@[j] == (df as i8, dr as i8));
        assert(leap_hits(from, KNIGHT_JUMPS@[j], t));
    }
}

/// A two-square Paladin jump of `off` from `from` lands on `t`, passing no enemy.
pub open spec fn jump_hits(cells: Seq<Cell>, from: int, off: (i8, i8), t: int, color: Color) -> bool {
    leap_hits(from, off, t) && !enemy_of(
        cells[sq_of(file_of(from) + sign(off.0 as int), rank_of(from) + sign(off.1 as int))],
        color,
    )
}

proof fn lemma_paladin_jump_reaches(cells: Seq<Cell>, from: int, off: (i8, i8), color: Color, t: int)
    requires
        0 <= t < 64,
        enemy_of(cells[t], color),
    ensures
        reaches(paladin_jump_moves(cells, from, off, color, false), t) <==> jump_hits(cells, from, off, t, color),
{
    let f = file_of(from);
    let r = rank_of(from);
    let to = sq_of(f + off.0, r + off.1);
    let mid = sq_of(f + sign(off.0 as int), r + sign(off.1 as int));
    let jm = paladin_jump_moves(cells, from, off, color, false);
    if on_board(f + off.0, r + off.1) {
        lemma_coords(f + off.0, r + off.1);
        if jm.len() == 1 {
            assert(jm == seq![mv(from, to, cells[to] is Some)]);
            lemma_reaches_single(mv(from, to, cells[to] is Some), t);
        } else {
            assert(jm.len() == 0);
            if to == t {
                assert(enemy_of(cells[mid], color));
            }
        }
    } else {
        assert(jm.len() == 0);
    }
}

proof fn lemma_paladin_jumps_reaches(cells: Seq<Cell>, from: int, offs: Seq<(i8, i8)>, color: Color, t: int)
    requires
        0 <= t < 64,
        enemy_of(cells[t], color),
    ensures
        reaches(paladin_jumps(cells, from, offs, color, false), t) <==> exists|j: int|
            0 <= j < offs.len() && #[trigger] jump_hits(cells, from, offs[j], t, color),
    decreases offs.len(),
{
    if offs.len() > 0 {
        let init = offs.drop_last();
        let off = offs.last();
        lemma_paladin_jumps_reaches(cells, from, init, color, t);
        let jm = paladin_jump_moves(cells, from, off, color, false);
        lemma_reaches_add(paladin_jumps(cells, from, init, color, false), jm, t);
        lemma_paladin_jump_reaches(cells, from, off, color, t);
        if exists|j: int| 0 <= j < offs.len() && #[trigger] jump_hits(cells, from, offs[j], t, color) {
            let j = choose|j: int| 0 <= j < offs.len() && #[trigger] jump_hits(cells, from, offs[j], t, color);
            if j < offs.len() - 1 {
                assert(init[j] == offs[j]);
            }
        }
        if exists|j: int| 0 <= j < init.len() && #[trigger] jump_hits(cells, from, init[j], t, color) {
            let j = choose|j: int| 0 <= j < init.len() && #[trigger] jump_hits(cells, from, init[j], t, color);
            assert(init[j] == offs[j]);
        }
    }
}

proof fn lemma_paladin_jump_hits(cells: Seq<Cell>, from: int, t: int, color: Color)
    requires
        0 <= from < 64,
        0 <= t < 64,
    ensures
        (exists|j: int| 0 <= j < PALADIN_JUMPS@.len() && #[trigger] jump_hits(cells, from, PALADIN_JUMPS@[j], t, color))
            <==> {
            let df = file_of(t) - file_of(from);
            let dr = rank_of(t) - rank_of(from);
            &&& (abs(df) == 2 && dr == 0) || (df == 0 && abs(dr) == 2)
            &&& !owned_by(
                cells[sq_of(file_of(from) + sign(df), rank_of(from) + sign(dr))],
                color.spec_opposite(),
            )
        },
{
    assert(PALADIN_JUMPS@ == seq![(-2i8, 0i8), (2i8, 0i8), (0i8, -2i8), (0i8, 2i8)]);
    let f = file_of(from);
    let r = rank_of(from);
    let df = file_of(t) - f;
    let dr = rank_of(t) - r;
    let mid = sq_of(f + sign(df), r + sign(dr));
    lemma_square(t);
    lemma_square(from);
    lemma_enemy_is_opponent(cells[mid], color);
    if exists|j: int| 0 <= j < PALADIN_JUMPS@.len() && #[trigger] jump_hits(cells, from, PALADIN_JUMPS@[j], t, color) {
        let j = choose|j: int| 0 <= j < PALADIN_JUMPS@.len() && #[trigger] jump_hits(cells, from, PALADIN_JUMPS@[j], t, color);
        let off = PALADIN_JUMPS@[j];
        lemma_coords(f + off.0, r + off.1);
    }
    if ((abs(df) == 2 && dr == 0) || (df == 0 && abs(dr) == 2)) && !owned_by(cells[mid], color.spec_opposite()) {
        let j: int = if df == -2 {
            0
        } else if df == 2 {
            1
        } else if dr == -2 {
            2
        } else {
            3
        };
        assert(PALADIN_JUMPS@[j] == (df as i8, dr as i8));
        assert(jump_hits(cells, from, PALADIN_JUMPS@[j], t, color));
    }
}

proof fn lemma_knight_reaches(cells: Seq<Cell>, from: int, color: Color, t: int)
    requires
        0 <= from < 64,
        0 <= t < 64,
        enemy_of(cells[t], color),
    ensures
        reaches(crate::pieces::knight_moves(cells, from, color, false), t) <==> rank_of(t) - rank_of(from)
            == forward(color) && abs(file_of(t) - file_of(from)) == 1,
{
    let f = file_of(from);
    let r = rank_of(from);
    let q = knight_quiet_moves(cells, from, color, false);
    let a = knight_capture(cells, from, color, -1);
    let b = knight_capture(cells, from, color, 1);
    lemma_square(t);
    lemma_square(from);
    assert(!reaches(q, t)) by {
        if reaches(q, t) {
            let i = choose|i: int| 0 <= i < q.len() && (#[trigger] q[i]).to as int == t;
            let fw = forward(color);
            lemma_coords(f, r + fw);
            if on_board(f, r + 2 * fw) {
                lemma_coords(f, r + 2 * fw);
            }
        }
    }
    if on_board(f - 1, r + forward(color)) {
        lemma_coords(f - 1, r + forward(color));
    }
    if on_board(f + 1, r + forward(color)) {
        lemma_coords(f + 1, r + forward(color));
    }
    if a.len() == 1 {
        lemma_reaches_single(a[0], t);
        assert(a == seq![a[0]]);
    }
    if b.len() == 1 {
        lemma_reaches_single(b[0], t);
        assert(b == seq![b[0]]);
    }
    lemma_reaches_add(q, a, t);
    lemma_reaches_add(q + a, b, t);
}

/// A piece attacks a square holding an enemy piece exactly when one of its
/// generated moves lands on that square.
pub proof fn lemma_attack_iff_move(cells: Seq<Cell>, s: int, t: int)
    requires
        0 <= s < 64,
        0 <= t < 64,
        cells[s] matches Some((c, _)) && enemy_of(cells[t], c),
    ensures
        cells[s] matches Some((c, _)) && (attacked_from(cells, s, c, t) <==> reaches(
            moves_for(cells, s, false),
            t,
        )),
{
    let (c, k) = cells[s].unwrap();
    match k {
        PieceKind::Emperor => {
            lemma_leaper_reaches(cells, s, ADJACENT@, c, t);
            lemma_adjacent_hits(s, t);
        },
        PieceKind::Empress => {
            lemma_sliding_reaches(cells, s, ADJACENT@, c, t);
            lemma_queen_dirs(cells, s, t);
        },
        PieceKind::Priest => {
            lemma_sliding_reaches(cells, s, DIAGONALS@, c, t);
            lemma_diagonal_dirs(cells, s, t);
            lemma_leaper_reaches(cells, s, KNIGHT_JUMPS@, c, t);
            lemma_knight_jump_hits(s, t);
            lemma_reaches_add(
                crate::movegen::sliding_moves(cells, s, DIAGONALS@, c, false, false),
                leaper_moves(cells, s, KNIGHT_JUMPS@, c, false, true),
                t,
            );
        },
        PieceKind::Paladin => {
            lemma_leaper_reaches(cells, s, ADJACENT@, c, t);
            lemma_adjacent_hits(s, t);
            lemma_paladin_jumps_reaches(cells, s, PALADIN_JUMPS@, c, t);
            lemma_paladin_jump_hits(cells, s, t, c);
            lemma_reaches_add(
                leaper_moves(cells, s, ADJACENT@, c, false, true),
                paladin_jumps(cells, s, PALADIN_JUMPS@, c, false),
                t,
            );
        },
        PieceKind::Dragon => {
            lemma_orthogonal_dirs(cells, s, t, c);
            lemma_dragon_dirs_reaches(cells, s, ORTHOGONALS@, c, t);
        },
        PieceKind::Knight => {
            lemma_knight_reaches(cells, s, c, t);
        },
    }
}

proof fn lemma_king_from(cells: Seq<Cell>, color: Color, i: nat)
    ensures
        king_from(cells, color, i) matches Some(k) ==> i <= k < 64 && cells[k] == Some(
            (color, PieceKind::Emperor),
        ),
    decreases 64 - i,
{
    if i < 64 && cells[i as int] != Some((color, PieceKind::Emperor)) {
        lemma_king_from(cells, color, i + 1);
    }
}

/// A side is in check exactly when some piece of the opponent has a generated
/// move onto the square of its Emperor (the lowest such square, should there
/// be several); a side without an Emperor is never in check.
pub proof fn law_check_means_capturable_emperor(cells: Seq<Cell>, color: Color)
    ensures
        in_check(cells, color) <==> (king_square(cells, color) matches Some(k) && exists|s: int|
            0 <= s < 64 && owned_by(cells[s], color.spec_opposite()) && #[trigger] reaches(
                moves_for(cells, s, false),
                k,
            )),
{
    lemma_king_from(cells, color, 0);
    let opp = color.spec_opposite();
    if let Some(k) = king_square(cells, color) {
        assert forall|s: int| 0 <= s < 64 && owned_by(cells[s], opp) implies (attacked_from(cells, s, opp, k)
            <==> #[trigger] reaches(moves_for(cells, s, false), k)) by {
            lemma_attack_iff_move(cells, s, k);
        }
        if square_attacked(cells, opp, k) {
            let s = choose|s: int| 0 <= s < 64 && #[trigger] attacked_from(cells, s, opp, k);
            assert(reaches(moves_for(cells, s, false), k));
        }
        if exists|s: int| 0 <= s < 64 && owned_by(cells[s], opp) && #[trigger] reaches(moves_for(cells, s, false), k) {
            let s = choose|s: int| 0 <= s < 64 && owned_by(cells[s], opp) && #[trigger] reaches(moves_for(cells, s, false), k);
            assert(attacked_from(cells, s, opp, k));
        }
    }
}

/// Walking a ray from `from` in direction `(df, dr)`: without jumping, the
/// moves reach exactly the squares along that direction with nothing in
/// between and no own piece on them, so the walk ends at the first occupied
/// square and takes it when it holds an enemy; with jumping, they reach every
/// square along the direction that holds no own piece.
pub proof fn law_ray_walk(cells: Seq<Cell>, from: int, df: int, dr: int, color: Color, t: int)
    requires
        0 <= from < 64,
        0 <= t < 64,
        is_direction(df, dr),
    ensures
        reaches(slide_moves(cells, from, ray(from, df, dr), color, false, false), t) <==> !owned_by(
            cells[t],
            color,
        ) && along(from, t, df, dr) && path_empty(cells, from, t),
        reaches(slide_moves(cells, from, ray(from, df, dr), color, false, true), t) <==> !owned_by(
            cells[t],
            color,
        ) && along(from, t, df, dr),
{
    let rs = ray(from, df, dr);
    lemma_ray_on_board(from, df, dr);
    lemma_ray_position(from, df, dr, t);
    if owned_by(cells[t], color) {
        lemma_slide(cells, from, rs, color, false, false);
        lemma_slide(cells, from, rs, color, false, true);
        let a = slide_moves(cells, from, rs, color, false, false);
        let b = slide_moves(cells, from, rs, color, false, true);
        if reaches(a, t) {
            let i = choose|i: int| 0 <= i < a.len() && (#[trigger] a[i]).to as int == t;
            assert(sound_move(cells, from, color, a[i]));
        }
        if reaches(b, t) {
            let i = choose|i: int| 0 <= i < b.len() && (#[trigger] b[i]).to as int == t;
            assert(sound_move(cells, from, color, b[i]));
        }
    } else {
        let d: (i8, i8) = (df as i8, dr as i8);
        assert(d.0 as int == df && d.1 as int == dr);
        lemma_direction_reaches(cells, from, d, color, t);
        lemma_slide_jump_reaches(cells, from, rs, color, t);
        if rs.contains(t) {
            let i = choose|i: int| 0 <= i < rs.len() && rs[i] == t;
            assert(rs[i] == t);
        }
        if along(from, t, df, dr) {
            assert(rs[line_dist(from, t) - 1] == t);
        }
    }
}

// ---------------------------------------------------------------------------
// No two generated moves of a piece end on the same square
// ---------------------------------------------------------------------------

/// No two moves of `ms` end on the same square.
pub open spec fn distinct_targets(ms: Seq<Move>) -> bool {
    forall|i: int, j: int| 0 <= i < j < ms.len() ==> (#[trigger] ms[i]).to != (#[trigger] ms[j]).to
}

proof fn lemma_distinct_add(a: Seq<Move>, b: Seq<Move>)
    requires
        distinct_targets(a),
        distinct_targets(b),
        forall|i: int, j: int| 0 <= i < a.len() && 0 <= j < b.len() ==> (#[trigger] a[i]).to != (#[trigger] b[j]).to,
    ensures
        distinct_targets(a + b),
{
    let s = a + b;
    assert forall|i: int, j: int| 0 <= i < j < s.len() implies (#[trigger] s[i]).to != (#[trigger] s[j]).to by {
        if j < a.len() {
            assert(s[i] == a[i] && s[j] == a[j]);
        } else if i < a.len() {
            assert(s[i] == a[i] && s[j] == b[j - a.len()]);
        } else {
            assert(s[i] == b[i - a.len()] && s[j] == b[j - a.len()]);
        }
    }
}

proof fn lemma_distinct_single(m: Move)
    ensures
        distinct_targets(seq![m]),
{
}

proof fn lemma_slide_distinct(cells: Seq<Cell>, from: int, targets: Seq<int>, color: Color, co: bool, jump: bool)
    requires
        targets_on_board(targets),
        targets.no_duplicates(),
    ensures
        distinct_targets(slide_moves(cells, from, targets, color, co, jump)),
        forall|i: int|
            0 <= i < slide_moves(cells, from, targets, color, co, jump).len() ==> targets.contains(
                (#[trigger] slide_moves(cells, from, targets, color, co, jump)[i]).to as int,
            ),
    decreases targets.len(),
{
    if targets.len() > 0 {
        let t0 = targets[0];
        let rest = targets.drop_first();
        assert(targets_on_board(rest)) by {
            assert forall|i: int| 0 <= i < rest.len() implies 0 <= #[trigger] rest[i] < 64 by {
                assert(rest[i] == targets[i + 1]);
            }
        }
        assert(rest.no_duplicates()) by {
            assert forall|i: int, j: int| 0 <= i < rest.len() && 0 <= j < rest.len() && i != j implies rest[i] != rest[j] by {
                assert(rest[i] == targets[i + 1] && rest[j] == targets[j + 1]);
            }
        }
        lemma_slide_distinct(cells, from, rest, color, co, jump);
        let rm = slide_moves(cells, from, rest, color, co, jump);
        let whole = slide_moves(cells, from, targets, color, co, jump);
        assert forall|j: int| 0 <= j < rm.len() implies (#[trigger] rm[j]).to != mv(from, t0, true).to by {
            let k = choose|k: int| 0 <= k < rest.len() && rest[k] == rm[j].to as int;
            assert(rest[k] == targets[k + 1]);
        }
        let q = seq![mv(from, t0, false)];
        let c = seq![mv(from, t0, true)];
        lemma_distinct_single(mv(from, t0, false));
        lemma_distinct_single(mv(from, t0, true));
        assert forall|i: int, j: int| 0 <= i < q.len() && 0 <= j < rm.len() implies (#[trigger] q[i]).to != (#[trigger] rm[j]).to by {
            assert(q[i].to == mv(from, t0, true).to);
        }
        assert forall|i: int, j: int| 0 <= i < c.len() && 0 <= j < rm.len() implies (#[trigger] c[i]).to != (#[trigger] rm[j]).to by {
            assert(c[i] == mv(from, t0, true));
        }
        lemma_distinct_add(q, rm);
        lemma_distinct_add(c, rm);
        assert(targets.contains(t0));
        assert forall|j: int| 0 <= j < rm.len() implies targets.contains((#[trigger] rm[j]).to as int) by {
            let k = choose|k: int| 0 <= k < rest.len() && rest[k] == rm[j].to as int;
            assert(rest[k] == targets[k + 1]);
        }
        assert forall|i: int| 0 <= i < whole.len() implies targets.contains((#[trigger] whole[i]).to as int) by {
            match cells[t0] {
                None => {
                    if !co {
                        assert(whole == q + rm);
                        if i > 0 {
                            assert(whole[i] == rm[i - 1]);
                        }
                    }
                },
                Some((pc, _)) => {
                    if pc != color && jump {
                        assert(whole == c + rm);
                        if i > 0 {
                            assert(whole[i] == rm[i - 1]);
                        }
                    } else if !jump && pc == color {
                        assert(whole.len() == 0);
                    } else if jump {
                        assert(whole == seq![] + rm);
                        assert(whole[i] == rm[i]);
                    }
                },
            }
        }
        match cells[t0] {
            None => {},
            Some((pc, _)) => {
                if jump && pc == color {
                    assert(whole =~= rm);
                }
                if !jump && pc != color {
                    assert(whole == c);
                }
            },
        }
    }
}

proof fn lemma_hop_distinct(cells: Seq<Cell>, from: int, targets: Seq<int>, color: Color, co: bool)
    requires
        targets_on_board(targets),
        targets.no_duplicates(),
    ensures
        distinct_targets(hop_moves(cells, from, targets, color, co)),
        forall|i: int|
            0 <= i < hop_moves(cells, from, targets, color, co).len() ==> targets.contains(
                (#[trigger] hop_moves(cells, from, targets, color, co)[i]).to as int,
            ),
    decreases targets.len(),
{
    if targets.len() > 0 {
        let t0 = targets[0];
        let rest = targets.drop_first();
        assert(targets_on_board(rest)) by {
            assert forall|i: int| 0 <= i < rest.len() implies 0 <= #[trigger] rest[i] < 64 by {
                assert(rest[i] == targets[i + 1]);
            }
        }
        assert(rest.no_duplicates()) by {
            assert forall|i: int, j: int| 0 <= i < rest.len() && 0 <= j < rest.len() && i != j implies rest[i] != rest[j] by {
                assert(rest[i] == targets[i + 1] && rest[j] == targets[j + 1]);
            }
        }
        lemma_hop_distinct(cells, from, rest, color, co);
        let rm = hop_moves(cells, from, rest, color, co);
        let whole = hop_moves(cells, from, targets, color, co);
        let q = seq![mv(from, t0, false)];
        lemma_distinct_single(mv(from, t0, false));
        lemma_distinct_single(mv(from, t0, true));
        assert forall|i: int, j: int| 0 <= i < q.len() && 0 <= j < rm.len() implies (#[trigger] q[i]).to != (#[trigger] rm[j]).to by {
            let k = choose|k: int| 0 <= k < rest.len() && rest[k] == rm[j].to as int;
            assert(rest[k] == targets[k + 1]);
            assert(q[i] == mv(from, t0, false));
        }
        lemma_distinct_add(q, rm);
        assert(targets.contains(t0));
        assert forall|j: int| 0 <= j < rm.len() implies targets.contains((#[trigger] rm[j]).to as int) by {
            let k = choose|k: int| 0 <= k < rest.len() && rest[k] == rm[j].to as int;
            assert(rest[k] == targets[k + 1]);
        }
        match cells[t0] {
            None => {
                if !co {
                    assert(whole == q + rm);
                    assert forall|i: int| 0 <= i < whole.len() implies targets.contains((#[trigger] whole[i]).to as int) by {
                        if i > 0 {
                            assert(whole[i] == rm[i - 1]);
                        }
                    }
                }
            },
            Some((pc, _)) => {
                if pc != color {
                    assert(whole == seq![mv(from, t0, true)]);
                }
            },
        }
    }
}

proof fn lemma_ray_distinct(from: int, df: int, dr: int)
    requires
        0 <= from < 64,
        is_direction(df, dr),
    ensures
        ray(from, df, dr).no_duplicates(),
{
    let rs = ray(from, df, dr);
    let f = file_of(from);
    let r = rank_of(from);
    lemma_ray_facts(from, df, dr);
    assert forall|i: int, j: int| 0 <= i < rs.len() && 0 <= j < rs.len() && i != j implies rs[i] != rs[j] by {
        assert(on_board(step(f, i + 1, df), step(r, i + 1, dr)));
        assert(on_board(step(f, j + 1, df), step(r, j + 1, dr)));
        lemma_coords(step(f, i + 1, df), step(r, i + 1, dr));
        lemma_coords(step(f, j + 1, df), step(r, j + 1, dr));
    }
}

/// Every move of `ms` ends along direction `d` from `from`.
pub open spec fn all_along(ms: Seq<Move>, from: int, d: (i8, i8)) -> bool {
    forall|i: int| 0 <= i < ms.len() ==> along(from, (#[trigger] ms[i]).to as int, d.0 as int, d.1 as int)
}

proof fn lemma_ray_targets_along(from: int, df: int, dr: int, t: int)
    requires
        0 <= from < 64,
        is_direction(df, dr),
        ray(from, df, dr).contains(t),
    ensures
        along(from, t, df, dr),
        0 <= t < 64,
{
    let rs = ray(from, df, dr);
    let i = choose|i: int| 0 <= i < rs.len() && rs[i] == t;
    lemma_ray_on_board(from, df, dr);
    assert(0 <= rs[i] < 64);
    lemma_ray_position(from, df, dr, t);
}

proof fn lemma_along_unique(from: int, t: int, a: (i8, i8), b: (i8, i8))
    requires
        0 <= from < 64,
        0 <= t < 64,
        is_direction(a.0 as int, a.1 as int),
        is_direction(b.0 as int, b.1 as int),
        along(from, t, a.0 as int, a.1 as int),
        along(from, t, b.0 as int, b.1 as int),
    ensures
        a == b,
{
    lemma_along(from, t, a.0 as int, a.1 as int);
    lemma_along(from, t, b.0 as int, b.1 as int);
}

/// The moves along each of `dirs`: Dragon walks, or slides.
pub open spec fn walks(cells: Seq<Cell>, from: int, dirs: Seq<(i8, i8)>, color: Color, co: bool, jump: bool, dragon: bool) -> Seq<Move> {
    if dragon {
        dragon_dirs(cells, from, dirs, color, co)
    } else {
        sliding_moves(cells, from, dirs, color, co, jump)
    }
}

/// `t` lies along one of `dirs` from `from`.
pub open spec fn along_some(from: int, t: int, dirs: Seq<(i8, i8)>) -> bool {
    exists|j: int| 0 <= j < dirs.len() && along(from, t, (#[trigger] dirs[j]).0 as int, dirs[j].1 as int)
}

proof fn lemma_sliding_distinct(cells: Seq<Cell>, from: int, dirs: Seq<(i8, i8)>, color: Color, co: bool, jump: bool, dragon: bool)
    requires
        0 <= from < 64,
        dirs.no_duplicates(),
        forall|j: int| 0 <= j < dirs.len() ==> is_direction((#[trigger] dirs[j]).0 as int, dirs[j].1 as int),
    ensures
        distinct_targets(walks(cells, from, dirs, color, co, jump, dragon)),
        forall|i: int|
            0 <= i < walks(cells, from, dirs, color, co, jump, dragon).len() ==> along_some(
                from,
                (#[trigger] walks(cells, from, dirs, color, co, jump, dragon)[i]).to as int,
                dirs,
            ) && 0 <= walks(cells, from, dirs, color, co, jump, dragon)[i].to < 64,
    decreases dirs.len(),
{
    if dirs.len() > 0 {
        let init = dirs.drop_last();
        let d = dirs.last();
        assert(init.no_duplicates()) by {
            assert forall|i: int, j: int| 0 <= i < init.len() && 0 <= j < init.len() && i != j implies init[i] != init[j] by {
                assert(init[i] == dirs[i] && init[j] == dirs[j]);
            }
        }
        assert forall|j: int| 0 <= j < init.len() implies is_direction((#[trigger] init[j]).0 as int, init[j].1 as int) by {
            assert(init[j] == dirs[j]);
        }
        lemma_sliding_distinct(cells, from, init, color, co, jump, dragon);
        let a = walks(cells, from, init, color, co, jump, dragon);
        let rs = ray(from, d.0 as int, d.1 as int);
        assert(is_direction(d.0 as int, d.1 as int));
        lemma_ray_on_board(from, d.0 as int, d.1 as int);
        lemma_ray_distinct(from, d.0 as int, d.1 as int);
        let b = if dragon {
            hop_moves(cells, from, rs, color, co)
        } else {
            slide_moves(cells, from, rs, color, co, jump)
        };
        if dragon {
            lemma_hop_distinct(cells, from, rs, color, co);
        } else {
            lemma_slide_distinct(cells, from, rs, color, co, jump);
            assert(direction_moves(cells, from, d, color, co, jump) == b);
        }
        assert(walks(cells, from, dirs, color, co, jump, dragon) == a + b);
        assert forall|j: int| 0 <= j < b.len() implies along(from, (#[trigger] b[j]).to as int, d.0 as int, d.1 as int)
            && 0 <= b[j].to < 64 by {
            lemma_ray_targets_along(from, d.0 as int, d.1 as int, b[j].to as int);
        }
        assert forall|i: int, j: int| 0 <= i < a.len() && 0 <= j < b.len() implies (#[trigger] a[i]).to != (#[trigger] b[j]).to by {
            assert(along_some(from, a[i].to as int, init));
            let k = choose|k: int| 0 <= k < init.len() && along(from, a[i].to as int, (#[trigger] init[k]).0 as int, init[k].1 as int);
            if a[i].to == b[j].to {
                assert(init[k] == dirs[k]);
                lemma_along_unique(from, a[i].to as int, init[k], d);
                assert(dirs[k] == dirs[dirs.len() - 1]);
            }
        }
        lemma_distinct_add(a, b);
        let ms = a + b;
        assert forall|i: int| 0 <= i < ms.len() implies along_some(from, (#[trigger] ms[i]).to as int, dirs)
            && 0 <= ms[i].to < 64 by {
            if i < a.len() {
                assert(ms[i] == a[i]);
                assert(along_some(from, a[i].to as int, init));
                let k = choose|k: int| 0 <= k < init.len() && along(from, a[i].to as int, (#[trigger] init[k]).0 as int, init[k].1 as int);
                assert(init[k] == dirs[k]);
            } else {
                assert(ms[i] == b[i - a.len()]);
                assert(dirs[dirs.len() - 1] == d);
            }
        }
    }
}

/// A leap of one of `offs` from `from` lands on `t`.
pub open spec fn hits_some(from: int, t: int, offs: Seq<(i8, i8)>) -> bool {
    exists|j: int| 0 <= j < offs.len() && leap_hits(from, #[trigger] offs[j], t)
}

/// The moves of the leaps in `offs`: Paladin jumps, or plain leaps.
pub open spec fn leaps(cells: Seq<Cell>, from: int, offs: Seq<(i8, i8)>, color: Color, co: bool, jump: bool, paladin: bool) -> Seq<Move> {
    if paladin {
        paladin_jumps(cells, from, offs, color, co)
    } else {
        leaper_moves(cells, from, offs, color, co, jump)
    }
}

proof fn lemma_leap_hits_unique(from: int, t: int, a: (i8, i8), b: (i8, i8))
    requires
        leap_hits(from, a, t),
        leap_hits(from, b, t),
    ensures
        a == b,
{
    let f = file_of(from);
    let r = rank_of(from);
    lemma_coords(f + a.0, r + a.1);
    lemma_coords(f + b.0, r + b.1);
}

proof fn lemma_leaper_distinct(cells: Seq<Cell>, from: int, offs: Seq<(i8, i8)>, color: Color, co: bool, jump: bool, paladin: bool)
    requires
        offs.no_duplicates(),
    ensures
        distinct_targets(leaps(cells, from, offs, color, co, jump, paladin)),
        forall|i: int|
            0 <= i < leaps(cells, from, offs, color, co, jump, paladin).len() ==> hits_some(
                from,
                (#[trigger] leaps(cells, from, offs, color, co, jump, paladin)[i]).to as int,
                offs,
            ) && 0 <= leaps(cells, from, offs, color, co, jump, paladin)[i].to < 64,
    decreases offs.len(),
{
    if offs.len() > 0 {
        let init = offs.drop_last();
        let off = offs.last();
        assert(init.no_duplicates()) by {
            assert forall|i: int, j: int| 0 <= i < init.len() && 0 <= j < init.len() && i != j implies init[i] != init[j] by {
                assert(init[i] == offs[i] && init[j] == offs[j]);
            }
        }
        lemma_leaper_distinct(cells, from, init, color, co, jump, paladin);
        let a = leaps(cells, from, init, color, co, jump, paladin);
        let b = if paladin {
            paladin_jump_moves(cells, from, off, color, co)
        } else {
            leap_moves(cells, from, off, color, co, jump)
        };
        let f = file_of(from);
        let r = rank_of(from);
        if on_board(f + off.0, r + off.1) {
            lemma_coords(f + off.0, r + off.1);
        }
        assert(b.len() <= 1);
        assert forall|j: int| 0 <= j < b.len() implies leap_hits(from, off, (#[trigger] b[j]).to as int) && 0 <= b[j].to < 64 by {
        }
        if b.len() == 1 {
            lemma_distinct_single(b[0]);
            assert(b == seq![b[0]]);
        }
        assert forall|i: int, j: int| 0 <= i < a.len() && 0 <= j < b.len() implies (#[trigger] a[i]).to != (#[trigger] b[j]).to by {
            assert(hits_some(from, a[i].to as int, init));
            let k = choose|k: int| 0 <= k < init.len() && leap_hits(from, #[trigger] init[k], a[i].to as int);
            if a[i].to == b[j].to {
                lemma_leap_hits_unique(from, a[i].to as int, init[k], off);
                assert(init[k] == offs[k]);
                assert(offs[k] == offs[offs.len() - 1]);
            }
        }
        lemma_distinct_add(a, b);
        let ms = a + b;
        assert(leaps(cells, from, offs, color, co, jump, paladin) == ms);
        assert forall|i: int| 0 <= i < ms.len() implies hits_some(from, (#[trigger] ms[i]).to as int, offs) && 0 <= ms[i].to < 64 by {
            if i < a.len() {
                assert(ms[i] == a[i]);
                assert(hits_some(from, a[i].to as int, init));
                let k = choose|k: int| 0 <= k < init.len() && leap_hits(from, #[trigger] init[k], a[i].to as int);
                assert(init[k] == offs[k]);
            } else {
                assert(ms[i] == b[i - a.len()]);
                assert(offs[offs.len() - 1] == off);
            }
        }
    }
}

proof fn lemma_knight_distinct(cells: Seq<Cell>, from: int, color: Color, co: bool)
    requires
        0 <= from < 64,
    ensures
        distinct_targets(crate::pieces::knight_moves(cells, from, color, co)),
{
    let f = file_of(from);
    let r = rank_of(from);
    let fw = forward(color);
    let q = knight_quiet_moves(cells, from, color, co);
    let a = knight_capture(cells, from, color, -1);
    let b = knight_capture(cells, from, color, 1);
    if on_board(f, r + fw) {
        lemma_coords(f, r + fw);
    }
    if on_board(f, r + 2 * fw) {
        lemma_coords(f, r + 2 * fw);
    }
    if on_board(f - 1, r + fw) {
        lemma_coords(f - 1, r + fw);
    }
    if on_board(f + 1, r + fw) {
        lemma_coords(f + 1, r + fw);
    }
    assert(distinct_targets(q));
    assert forall|i: int| 0 <= i < q.len() implies file_of((#[trigger] q[i]).to as int) == f by {}
    assert forall|i: int| 0 <= i < a.len() implies file_of((#[trigger] a[i]).to as int) == f - 1 by {}
    assert forall|i: int| 0 <= i < b.len() implies file_of((#[trigger] b[i]).to as int) == f + 1 by {}
    assert(distinct_targets(a));
    assert(distinct_targets(b));
    lemma_distinct_add(q, a);
    let qa = q + a;
    assert forall|i: int| 0 <= i < qa.len() implies file_of((#[trigger] qa[i]).to as int) <= f by {
        if i < q.len() {
            assert(qa[i] == q[i]);
        } else {
            assert(qa[i] == a[i - q.len()]);
        }
    }
    lemma_distinct_add(qa, b);
}

proof fn lemma_diagonal_and_jump_apart(cells: Seq<Cell>, from: int, color: Color, co: bool)
    requires
        0 <= from < 64,
    ensures
        forall|i: int, j: int|
            0 <= i < walks(cells, from, DIAGONALS@, color, co, false, false).len() && 0 <= j < leaps(
                cells,
                from,
                KNIGHT_JUMPS@,
                color,
                co,
                true,
                false,
            ).len() ==> (#[trigger] walks(cells, from, DIAGONALS@, color, co, false, false)[i]).to != (
            #[trigger] leaps(cells, from, KNIGHT_JUMPS@, color, co, true, false)[j]).to,
{
    assert(DIAGONALS@ == seq![(-1i8, -1i8), (-1i8, 1i8), (1i8, -1i8), (1i8, 1i8)]);
    assert(DIAGONALS@.no_duplicates());
    assert(KNIGHT_JUMPS@ == seq![(-2i8, 1i8), (-1i8, 2i8), (1i8, 2i8), (2i8, 1i8), (2i8, -1i8), (1i8, -2i8), (-1i8, -2i8), (-2i8, -1i8)]);
    assert(KNIGHT_JUMPS@.no_duplicates());
    lemma_sliding_distinct(cells, from, DIAGONALS@, color, co, false, false);
    lemma_leaper_distinct(cells, from, KNIGHT_JUMPS@, color, co, true, false);
    let a = walks(cells, from, DIAGONALS@, color, co, false, false);
    let b = leaps(cells, from, KNIGHT_JUMPS@, color, co, true, false);
    assert forall|i: int, j: int| 0 <= i < a.len() && 0 <= j < b.len() implies (#[trigger] a[i]).to != (#[trigger] b[j]).to by {
        let t = a[i].to as int;
        assert(along_some(from, t, DIAGONALS@));
        let k = choose|k: int| 0 <= k < DIAGONALS@.len() && along(from, t, (#[trigger] DIAGONALS@[k]).0 as int, DIAGONALS@[k].1 as int);
        lemma_along(from, t, DIAGONALS@[k].0 as int, DIAGONALS@[k].1 as int);
        if b[j].to as int == t {
            assert(hits_some(from, t, KNIGHT_JUMPS@));
            lemma_knight_jump_hits(from, t);
        }
    }
}

proof fn lemma_step_and_jump_apart(cells: Seq<Cell>, from: int, color: Color, co: bool)
    requires
        0 <= from < 64,
    ensures
        forall|i: int, j: int|
            0 <= i < leaps(cells, from, ADJACENT@, color, co, true, false).len() && 0 <= j < leaps(
                cells,
                from,
                PALADIN_JUMPS@,
                color,
                co,
                true,
                true,
            ).len() ==> (#[trigger] leaps(cells, from, ADJACENT@, color, co, true, false)[i]).to != (
            #[trigger] leaps(cells, from, PALADIN_JUMPS@, color, co, true, true)[j]).to,
{
    assert(ADJACENT@ == seq![(-1i8, -1i8), (-1i8, 0i8), (-1i8, 1i8), (0i8, -1i8), (0i8, 1i8), (1i8, -1i8), (1i8, 0i8), (1i8, 1i8)]);
    assert(ADJACENT@.no_duplicates());
    assert(PALADIN_JUMPS@ == seq![(-2i8, 0i8), (2i8, 0i8), (0i8, -2i8), (0i8, 2i8)]);
    assert(PALADIN_JUMPS@.no_duplicates());
    lemma_leaper_distinct(cells, from, ADJACENT@, color, co, true, false);
    lemma_leaper_distinct(cells, from, PALADIN_JUMPS@, color, co, true, true);
    let a = leaps(cells, from, ADJACENT@, color, co, true, false);
    let b = leaps(cells, from, PALADIN_JUMPS@, color, co, true, true);
    let f = file_of(from);
    let r = rank_of(from);
    assert forall|i: int, j: int| 0 <= i < a.len() && 0 <= j < b.len() implies (#[trigger] a[i]).to != (#[trigger] b[j]).to by {
        let t = a[i].to as int;
        assert(hits_some(from, t, ADJACENT@));
        let k = choose|k: int| 0 <= k < ADJACENT@.len() && leap_hits(from, #[trigger] ADJACENT@[k], t);
        lemma_coords(f + ADJACENT@[k].0, r + ADJACENT@[k].1);
        if b[j].to as int == t {
            assert(hits_some(from, t, PALADIN_JUMPS@));
            let m = choose|m: int| 0 <= m < PALADIN_JUMPS@.len() && leap_hits(from, #[trigger] PALADIN_JUMPS@[m], t);
            lemma_coords(f + PALADIN_JUMPS@[m].0, r + PALADIN_JUMPS@[m].1);
        }
    }
}

/// No two moves that the generator gives for the piece on a square end on the
/// same square, whether all moves or only captures are asked for.
pub proof fn law_moves_have_distinct_targets(cells: Seq<Cell>, sq: int, captures_only: bool)
    requires
        0 <= sq < 64,
    ensures
        distinct_targets(moves_for(cells, sq, captures_only)),
{
    let co = captures_only;
    assert(ADJACENT@ == seq![(-1i8, -1i8), (-1i8, 0i8), (-1i8, 1i8), (0i8, -1i8), (0i8, 1i8), (1i8, -1i8), (1i8, 0i8), (1i8, 1i8)]);
    assert(ADJACENT@.no_duplicates());
    assert(ORTHOGONALS@ == seq![(1i8, 0i8), (-1i8, 0i8), (0i8, 1i8), (0i8, -1i8)]);
    assert(ORTHOGONALS@.no_duplicates());
    match cells[sq] {
        None => {},
        Some((c, k)) => {
            match k {
                PieceKind::Emperor => {
                    lemma_leaper_distinct(cells, sq, ADJACENT@, c, co, true, false);
                },
                PieceKind::Empress => {
                    assert forall|j: int| 0 <= j < ADJACENT@.len() implies is_direction((#[trigger] ADJACENT@[j]).0 as int, ADJACENT@[j].1 as int) by {}
                    lemma_sliding_distinct(cells, sq, ADJACENT@, c, co, false, false);
                },
                PieceKind::Priest => {
                    assert(DIAGONALS@ == seq![(-1i8, -1i8), (-1i8, 1i8), (1i8, -1i8), (1i8, 1i8)]);
                    assert(DIAGONALS@.no_duplicates());
                    assert forall|j: int| 0 <= j < DIAGONALS@.len() implies is_direction((#[trigger] DIAGONALS@[j]).0 as int, DIAGONALS@[j].1 as int) by {}
                    assert(KNIGHT_JUMPS@ == seq![(-2i8, 1i8), (-1i8, 2i8), (1i8, 2i8), (2i8, 1i8), (2i8, -1i8), (1i8, -2i8), (-1i8, -2i8), (-2i8, -1i8)]);
                    assert(KNIGHT_JUMPS@.no_duplicates());
                    lemma_sliding_distinct(cells, sq, DIAGONALS@, c, co, false, false);
                    lemma_leaper_distinct(cells, sq, KNIGHT_JUMPS@, c, co, true, false);
                    lemma_diagonal_and_jump_apart(cells, sq, c, co);
                    lemma_distinct_add(
                        walks(cells, sq, DIAGONALS@, c, co, false, false),
                        leaps(cells, sq, KNIGHT_JUMPS@, c, co, true, false),
                    );
                },
                PieceKind::Paladin => {
                    assert(PALADIN_JUMPS@ == seq![(-2i8, 0i8), (2i8, 0i8), (0i8, -2i8), (0i8, 2i8)]);
                    assert(PALADIN_JUMPS@.no_duplicates());
                    lemma_leaper_distinct(cells, sq, ADJACENT@, c, co, true, false);
                    lemma_leaper_distinct(cells, sq, PALADIN_JUMPS@, c, co, true, true);
                    lemma_step_and_jump_apart(cells, sq, c, co);
                    lemma_distinct_add(
                        leaps(cells, sq, ADJACENT@, c, co, true, false),
                        leaps(cells, sq, PALADIN_JUMPS@, c, co, true, true),
                    );
                },
                PieceKind::Dragon => {
                    assert forall|j: int| 0 <= j < ORTHOGONALS@.len() implies is_direction((#[trigger] ORTHOGONALS@[j]).0 as int, ORTHOGONALS@[j].1 as int) by {}
                    lemma_sliding_distinct(cells, sq, ORTHOGONALS@, c, co, false, true);
                },
                PieceKind::Knight => {
                    lemma_knight_distinct(cells, sq, c, co);
                },
            }
        },
    }
}

/// The targeted attack test agrees with move generation: a piece of `color`
/// and `kind` on `from` attacks a square `to` holding a piece of the other
/// colour exactly when one of its generated moves is a capture on `to`.
pub proof fn law_attacks_agree_with_moves(cells: Seq<Cell>, from: int, kind: PieceKind, color: Color, to: int)
    requires
        0 <= from < 64,
        0 <= to < 64,
        cells[from] == Some((color, kind)),
        cells[to] matches Some((pc, _)) && pc == color.spec_opposite(),
    ensures
        attacks_square(cells, from, kind, color, to) <==> exists|i: int|
            0 <= i < moves_for(cells, from, false).len() && (#[trigger] moves_for(cells, from, false)[i]).to
                == to && moves_for(cells, from, false)[i].capture,
{
    let ms = moves_for(cells, from, false);
    assert(enemy_of(cells[to], color));
    lemma_attack_iff_move(cells, from, to);
    lemma_moves_for(cells, from, false);
    if reaches(ms, to) {
        let i = choose|i: int| 0 <= i < ms.len() && (#[trigger] ms[i]).to as int == to;
        assert(sound_move(cells, from, color, ms[i]));
        assert(ms[i].to == to && ms[i].capture);
    }
    if exists|i: int| 0 <= i < ms.len() && (#[trigger] ms[i]).to == to && ms[i].capture {
        let i = choose|i: int| 0 <= i < ms.len() && (#[trigger] ms[i]).to == to && ms[i].capture;
        assert(ms[i].to as int == to);
    }
}

/// A leap of `off` from `from` that a walk may take to `t`: it lands on `t`,
/// and, without jumping, nothing stands on the square it passes over.
pub open spec fn leap_allowed(cells: Seq<Cell>, from: int, off: (i8, i8), t: int, jump: bool) -> bool {
    leap_hits(from, off, t) && (jump || !leg_blocked(
        cells,
        file_of(from),
        rank_of(from),
        off.0 as int,
        off.1 as int,
    ))
}

/// `t` is a square a `color` piece may move to: empty (unless only captures
/// are wanted) or holding an enemy piece.
pub open spec fn open_target(cell: Cell, color: Color, captures_only: bool) -> bool {
    match cell {
        None => !captures_only,
        Some((pc, _)) => pc != color,
    }
}

proof fn lemma_leap_walk(cells: Seq<Cell>, from: int, off: (i8, i8), color: Color, co: bool, jump: bool, t: int)
    requires
        0 <= t < 64,
    ensures
        reaches(leap_moves(cells, from, off, color, co, jump), t) <==> open_target(cells[t], color, co)
            && leap_allowed(cells, from, off, t, jump),
{
    let f = file_of(from);
    let r = rank_of(from);
    let to = sq_of(f + off.0, r + off.1);
    let s = leap_moves(cells, from, off, color, co, jump);
    if on_board(f + off.0, r + off.1) {
        lemma_coords(f + off.0, r + off.1);
    }
    if s.len() == 1 {
        lemma_reaches_single(s[0], t);
        assert(s == seq![s[0]]);
    }
}

/// Walking a set of leaps: the moves reach exactly the squares that some
/// leap of the set may take (landing on the board, and without jumping not
/// passing over an occupied square) and that are empty (unless only captures
/// are wanted) or hold an enemy piece.
pub proof fn law_leaper_walk(cells: Seq<Cell>, from: int, offs: Seq<(i8, i8)>, color: Color, co: bool, jump: bool, t: int)
    requires
        0 <= t < 64,
    ensures
        reaches(leaper_moves(cells, from, offs, color, co, jump), t) <==> open_target(cells[t], color, co)
            && exists|j: int| 0 <= j < offs.len() && #[trigger] leap_allowed(cells, from, offs[j], t, jump),
    decreases offs.len(),
{
    if offs.len() > 0 {
        let init = offs.drop_last();
        law_leaper_walk(cells, from, init, color, co, jump, t);
        lemma_leap_walk(cells, from, offs.last(), color, co, jump, t);
        lemma_reaches_add(
            leaper_moves(cells, from, init, color, co, jump),
            leap_moves(cells, from, offs.last(), color, co, jump),
            t,
        );
        if exists|j: int| 0 <= j < offs.len() && #[trigger] leap_allowed(cells, from, offs[j], t, jump) {
            let j = choose|j: int| 0 <= j < offs.len() && #[trigger] leap_allowed(cells, from, offs[j], t, jump);
            if j < offs.len() - 1 {
                assert(init[j] == offs[j]);
            }
        }
        if exists|j: int| 0 <= j < init.len() && #[trigger] leap_allowed(cells, from, init[j], t, jump) {
            let j = choose|j: int| 0 <= j < init.len() && #[trigger] leap_allowed(cells, from, init[j], t, jump);
            assert(init[j] == offs[j]);
        }
    }
}

} // verus!