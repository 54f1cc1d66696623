//! Move generation for each kind of piece.

use vstd::prelude::*;
use crate::board::{coord_to_index, file_of, index_to_coord, on_board, rank_of, sign, sq_of, Board, Cell};
use crate::movegen::{generate_leaper_moves, generate_sliding_moves, sliding_moves};
use crate::rays::{is_direction, lemma_ray_facts, leaper_moves, mv, ray, ray_len};
use crate::board::step;
use crate::types::{Color, Move};

verus! {

/// The eight adjacent squares.
pub const ADJACENT: [(i8, i8); 8] = [
    (-1, -1),
    (-1, 0),
    (-1, 1),
    (0, -1),
    (0, 1),
    (1, -1),
    (1, 0),
    (1, 1),
];

/// The four diagonal directions.
pub const DIAGONALS: [(i8, i8); 4] = [(-1, -1), (-1, 1), (1, -1), (1, 1)];

/// The eight knight jumps of the Priest.
pub const KNIGHT_JUMPS: [(i8, i8); 8] = [
    (-2, 1),
    (-1, 2),
    (1, 2),
    (2, 1),
    (2, -1),
    (1, -2),
    (-1, -2),
    (-2, -1),
];

/// The four two-square orthogonal jumps of the Paladin.
pub const PALADIN_JUMPS: [(i8, i8); 4] = [(-2, 0), (2, 0), (0, -2), (0, 2)];

/// The four orthogonal directions of the Dragon, in search order.
pub const ORTHOGONALS: [(i8, i8); 4] = [(1, 0), (-1, 0), (0, 1), (0, -1)];

// ---------- Emperor ----------
/// One step in any direction, onto an empty or enemy square.
pub open spec fn emperor_moves(cells: Seq<Cell>, from: int, color: Color, captures_only: bool) -> Seq<Move> {
    leaper_moves(cells, from, ADJACENT@, color, captures_only, true)
}

// ---------- Empress ----------
/// Slides in all eight directions.
pub open spec fn empress_moves(cells: Seq<Cell>, from: int, color: Color, captures_only: bool) -> Seq<Move> {
    sliding_moves(cells, from, ADJACENT@, color, captures_only, false)
}

// ---------- Priest ----------
/// Slides diagonally, then knight jumps.
pub open spec fn priest_moves(cells: Seq<Cell>, from: int, color: Color, captures_only: bool) -> Seq<Move> {
    sliding_moves(cells, from, DIAGONALS@, color, captures_only, false) + leaper_moves(
        cells,
        from,
        KNIGHT_JUMPS@,
        color,
        captures_only,
        true,
    )
}

// ---------- Paladin ----------
/// A two-square orthogonal jump: onto an enemy square, or an empty square
/// unless only captures are wanted; the square passed over must be empty
/// or hold an own piece.
pub open spec fn paladin_jump_moves(
    cells: Seq<Cell>,
    from: int,
    off: (i8, i8),
    color: Color,
    captures_only: bool,
) -> Seq<Move> {
    let f = file_of(from);
    let r = rank_of(from);
    let tf = f + off.0;
    let tr = r + off.1;
    let to = sq_of(tf, tr);
    let mid = sq_of(f + sign(off.0 as int), r + sign(off.1 as int));
    if !on_board(tf, tr) {
        seq![]
    } else {
        match cells[to] {
            Some((pc, _)) if pc == color => seq![],
            None if captures_only => seq![],
            _ => match cells[mid] {
                Some((pc, _)) if pc != color => seq![],
                _ => seq![mv(from, to, cells[to] is Some)],
            },
        }
    }
}

pub open spec fn paladin_jumps(
    cells: Seq<Cell>,
    from: int,
    offs: Seq<(i8, i8)>,
    color: Color,
    captures_only: bool,
) -> Seq<Move>
    decreases offs.len(),
{
    if offs.len() == 0 {
        seq![]
    } else {
        paladin_jumps(cells, from, offs.drop_last(), color, captures_only) + paladin_jump_moves(
            cells,
            from,
            offs.last(),
            color,
            captures_only,
        )
    }
}

/// One step in any direction, then the two-square orthogonal jumps.
pub open spec fn paladin_moves(cells: Seq<Cell>, from: int, color: Color, captures_only: bool) -> Seq<Move> {
    leaper_moves(cells, from, ADJACENT@, color, captures_only, true) + paladin_jumps(
        cells,
        from,
        PALADIN_JUMPS@,
        color,
        captures_only,
    )
}

// ---------- Dragon ----------
/// Walking `targets`: empty squares give quiet moves (unless only captures
/// are wanted), own pieces are jumped over, the first enemy piece is
/// captured and ends the walk.
pub open spec fn hop_moves(
    cells: Seq<Cell>,
    from: int,
    targets: Seq<int>,
    color: Color,
    captures_only: bool,
) -> Seq<Move>
    decreases targets.len(),
{
    if targets.len() == 0 {
        seq![]
    } else {
        let t = targets[0];
        let rest = hop_moves(cells, from, targets.drop_first(), color, captures_only);
        match cells[t] {
            None => if captures_only {
                rest
            } else {
                seq![mv(from, t, false)] + rest
            },
            Some((pc, _)) => if pc == color {
                rest
            } else {
                seq![mv(from, t, true)]
            },
        }
    }
}

pub open spec fn dragon_dirs(
    cells: Seq<Cell>,
    from: int,
    dirs: Seq<(i8, i8)>,
    color: Color,
    captures_only: bool,
) -> Seq<Move>
    decreases dirs.len(),
{
    if dirs.len() == 0 {
        seq![]
    } else {
        dragon_dirs(cells, from, dirs.drop_last(), color, captures_only) + hop_moves(
            cells,
            from,
            ray(from, dirs.last().0 as int, dirs.last().1 as int),
            color,
            captures_only,
        )
    }
}

/// Orthogonal walks over own pieces, up to and including the first enemy.
pub open spec fn dragon_moves(cells: Seq<Cell>, from: int, color: Color, captures_only: bool) -> Seq<Move> {
    dragon_dirs(cells, from, ORTHOGONALS@, color, captures_only)
}

// ---------- Knight (pawn-like) ----------
pub open spec fn forward(color: Color) -> int {
    if color == Color::White {
        1
    } else {
        -1
    }
}

pub open spec fn start_rank(color: Color) -> int {
    if color == Color::White {
        1
    } else {
        6
    }
}

/// One step forward onto an empty square, and from the start rank a second
/// step onto an empty square; none when only captures are wanted.
pub open spec fn knight_quiet_moves(cells: Seq<Cell>, from: int, color: Color, captures_only: bool) -> Seq<Move> {
    let f = file_of(from);
    let r = rank_of(from);
    let fw = forward(color);
    let one = sq_of(f, r + fw);
    let two = sq_of(f, r + 2 * fw);
    if captures_only || !on_board(f, r + fw) || cells[one] is Some {
        seq![]
    } else if r == start_rank(color) && on_board(f, r + 2 * fw) && cells[two] is None {
        seq![mv(from, one, false), mv(from, two, false)]
    } else {
        seq![mv(from, one, false)]
    }
}

/// The diagonal capture towards file offset `df`.
pub open spec fn knight_capture(cells: Seq<Cell>, from: int, color: Color, df: int) -> Seq<Move> {
    let tf = file_of(from) + df;
    let tr = rank_of(from) + forward(color);
    let to = sq_of(tf, tr);
    if on_board(tf, tr) && (cells[to] matches Some((pc, _)) && pc != color) {
        seq![mv(from, to, true)]
    } else {
        seq![]
    }
}

pub open spec fn knight_moves(cells: Seq<Cell>, from: int, color: Color, captures_only: bool) -> Seq<Move> {
    knight_quiet_moves(cells, from, color, captures_only) + knight_capture(cells, from, color, -1)
        + knight_capture(cells, from, color, 1)
}

pub fn generate_emperor_moves(board: &Board, from: usize, color: Color, captures_only: bool) -> (moves: Vec<Move>)
    requires
        from < 64,
    ensures
        moves@ == emperor_moves(board.cells(), from as int, color, captures_only),
{
    generate_leaper_moves(board, from, color, &ADJACENT, true, captures_only)
}

pub fn generate_empress_moves(board: &Board, from: usize, color: Color, captures_only: bool) -> (moves: Vec<Move>)
    requires
        from < 64,
    ensures
        moves@ == empress_moves(board.cells(), from as int, color, captures_only),
{
    generate_sliding_moves(board, from, color, &ADJACENT, false, captures_only)
}

pub fn generate_priest_moves(board: &Board, from: usize, color: Color, captures_only: bool) -> (moves: Vec<Move>)
    requires
        from < 64,
    ensures
        moves@ == priest_moves(board.cells(), from as int, color, captures_only),
{
    // Diagonal sliding (bishop)
    let mut moves = generate_sliding_moves(board, from, color, &DIAGONALS, false, captures_only);
    // Knight jumps
    let mut jumps = generate_leaper_moves(board, from, color, &KNIGHT_JUMPS, true, captures_only);
    moves.append(&mut jumps);
    moves
}

pub fn generate_paladin_moves(board: &Board, from: usize, color: Color, captures_only: bool) -> (moves: Vec<Move>)
    requires
        from < 64,
    ensures
        moves@ == paladin_moves(board.cells(), from as int, color, captures_only),
{
    // 1) Adjacent squares (like Emperor)
    let mut moves = generate_leaper_moves(board, from, color, &ADJACENT, true, captures_only);
    let ghost adjacent = moves@;
    // 2) Two-square orthogonal jumps over an empty or friendly square
    let (f, r) = index_to_coord(from);
    let mut i: usize = 0;
    proof {
        assert(PALADIN_JUMPS@.take(0) =~= Seq::<(i8, i8)>::empty());
    }
    while i < 4
        invariant
            from < 64,
            f == file_of(from as int),
            r == rank_of(from as int),
            0 <= i <= 4,
            moves@ == adjacent + paladin_jumps(
                board.cells(),
                from as int,
                PALADIN_JUMPS@.take(i as int),
                color,
                captures_only,
            ),
        decreases 4 - i,
    {
        let (df, dr) = PALADIN_JUMPS[i];
        let ghost before = moves@;
        proof {
            assert(PALADIN_JUMPS@.take(i + 1).drop_last() =~= PALADIN_JUMPS@.take(i as int));
            assert(PALADIN_JUMPS@.take(i + 1).last() == (df, dr));
        }
        if let Some(to_idx) = coord_to_index(f + df, r + dr) {
            let target = board.get(to_idx);
            let skip = match target {
                Some((pc, _)) => pc == color,
                None => captures_only,
            };
            if !skip {
                // The square passed over: one step in the direction of the jump.
                let sf: i8 = if df > 0 { 1 } else if df < 0 { -1 } else { 0 };
                let sr: i8 = if dr > 0 { 1 } else if dr < 0 { -1 } else { 0 };
                let mid = coord_to_index(f + sf, r + sr);
                let mid_idx: usize = match mid {
                    Some(m) => m,
                    None => {
                        proof {
                            assert(false);
                        }
                        0
                    },
                };
                let mid_ok = match board.get(mid_idx) {
                    None => true,
                    Some((pc, _)) => pc == color,
                };
                if mid_ok {
                    moves.push(Move { from: from as u8, to: to_idx as u8, capture: target.is_some() });
                }
            }
        }
        proof {
            assert(moves@ =~= before + paladin_jump_moves(
                board.cells(),
                from as int,
                (df, dr),
                color,
                captures_only,
            ));
        }
        i += 1;
    }
    proof {
        assert(PALADIN_JUMPS@.take(4) =~= PALADIN_JUMPS@);
    }
    moves
}

/// Append the Dragon's walk from `from` in direction `(df, dr)`.
fn dragon_walk(
    board: &Board,
    from: usize,
    color: Color,
    df: i8,
    dr: i8,
    captures_only: bool,
    moves: &mut Vec<Move>,
)
    requires
        from < 64,
        is_direction(df as int, dr as int),
    ensures
        final(moves)@ == old(moves)@ + hop_moves(
            board.cells(),
            from as int,
            ray(from as int, df as int, dr as int),
            color,
            captures_only,
        ),
{
    let ghost targets = ray(from as int, df as int, dr as int);
    let ghost total = hop_moves(board.cells(), from as int, targets, color, captures_only);
    let (f, r) = index_to_coord(from);
    proof {
        lemma_ray_facts(from as int, df as int, dr as int);
        assert(targets.skip(0) =~= targets);
    }
    let mut k: usize = 0;
    let mut file: i8 = f + df;
    let mut rank: i8 = r + dr;
    while 0 <= file && file < 8 && 0 <= rank && rank < 8
        invariant
            from < 64,
            is_direction(df as int, dr as int),
            f == file_of(from as int),
            r == rank_of(from as int),
            targets == ray(from as int, df as int, dr as int),
            total == hop_moves(board.cells(), from as int, targets, color, captures_only),
            0 <= k <= targets.len(),
            file == step(f as int, k + 1, df as int),
            rank == step(r as int, k + 1, dr as int),
            old(moves)@ + total == moves@ + hop_moves(
                board.cells(),
                from as int,
                targets.skip(k as int),
                color,
                captures_only,
            ),
            forall|kk: int|
                #![trigger step(file_of(from as int), kk, df as int)]
                0 <= kk ==> (on_board(
                    step(file_of(from as int), kk, df as int),
                    step(rank_of(from as int), kk, dr as int),
                ) <==> kk <= ray_len(from as int, df as int, dr as int)),
        decreases targets.len() - k,
    {
        proof {
            assert(on_board(
                step(file_of(from as int), k + 1, df as int),
                step(rank_of(from as int), k + 1, dr as int),
            ));
        }
        let to_idx: usize = (rank * 8 + file) as usize;
        let ghost rest = targets.skip(k as int);
        proof {
            assert(to_idx == targets[k as int]);
            assert(rest[0] == targets[k as int]);
            assert(rest.drop_first() =~= targets.skip(k + 1));
        }
        match board.get(to_idx) {
            None => {
                if !captures_only {
                    moves.push(Move { from: from as u8, to: to_idx as u8, capture: false });
                }
            },
            Some((pc, _)) => {
                if pc != color {
                    // Enemy piece: capture and stop
                    moves.push(Move { from: from as u8, to: to_idx as u8, capture: true });
                    proof {
                        assert(moves@ =~= old(moves)@ + total);
                    }
                    return ;
                }
                // Friendly piece: jump over it and keep sliding

            },
        }
        proof {
            assert(moves@ + hop_moves(
                board.cells(),
                from as int,
                targets.skip(k + 1),
                color,
                captures_only,
            ) =~= old(moves)@ + total);
        }
        file = file + df;
        rank = rank + dr;
        k += 1;
    }
    proof {
        assert(targets.skip(k as int).len() == 0);
        assert(moves@ =~= old(moves)@ + total);
    }
}

pub fn generate_dragon_moves(board: &Board, from: usize, color: Color, captures_only: bool) -> (moves: Vec<Move>)
    requires
        from < 64,
    ensures
        moves@ == dragon_moves(board.cells(), from as int, color, captures_only),
{
    let mut moves: Vec<Move> = Vec::new();
    let mut i: usize = 0;
    proof {
        assert(ORTHOGONALS@.take(0) =~= Seq::<(i8, i8)>::empty());
    }
    while i < 4
        invariant
            from < 64,
            0 <= i <= 4,
            moves@ == dragon_dirs(board.cells(), from as int, ORTHOGONALS@.take(i as int), color, captures_only),
        decreases 4 - i,
    {
        let (df, dr) = ORTHOGONALS[i];
        proof {
            assert(ORTHOGONALS@.take(i + 1).drop_last() =~= ORTHOGONALS@.take(i as int));
            assert(ORTHOGONALS@.take(i + 1).last() == (df, dr));
        }
        dragon_walk(board, from, color, df, dr, captures_only, &mut moves);
        i += 1;
    }
    proof {
        assert(ORTHOGONALS@.take(4) =~= ORTHOGONALS@);
    }
    moves
}

pub fn generate_knight_moves(board: &Board, from: usize, color: Color, captures_only: bool) -> (moves: Vec<Move>)
    requires
        from < 64,
    ensures
        moves@ == knight_moves(board.cells(), from as int, color, captures_only),
{
    let mut moves: Vec<Move> = Vec::new();
    let (f, r) = index_to_coord(from);
    let fwd: i8 = if color == Color::White { 1 } else { -1 };
    let start: i8 = if color == Color::White { 1 } else { 6 };
    // one step forward (quiet)
    if !captures_only {
        if let Some(idx) = coord_to_index(f, r + fwd) {
            if board.get(idx).is_none() {
                moves.push(Move { from: from as u8, to: idx as u8, capture: false });
                // double step from the start rank
                if r == start {
                    if let Some(idx2) = coord_to_index(f, r + 2 * fwd) {
                        if board.get(idx2).is_none() {
                            moves.push(Move { from: from as u8, to: idx2 as u8, capture: false });
                        }
                    }
                }
            }
        }
    }
    proof {
        assert(moves@ =~= knight_quiet_moves(board.cells(), from as int, color, captures_only));
    }
    // diagonal captures
    let ghost quiet = moves@;
    if let Some(idx) = coord_to_index(f - 1, r + fwd) {
        if let Some((pc, _)) = board.get(idx) {
            if pc != color {
                moves.push(Move { from: from as u8, to: idx as u8, capture: true });
            }
        }
    }
    proof {
        assert(moves@ =~= quiet + knight_capture(board.cells(), from as int, color, -1));
    }
    let ghost left = moves@;
    if let Some(idx) = coord_to_index(f + 1, r + fwd) {
        if let Some((pc, _)) = board.get(idx) {
            if pc != color {
                moves.push(Move { from: from as u8, to: idx as u8, capture: true });
            }
        }
    }
    proof {
        assert(moves@ =~= left + knight_capture(board.cells(), from as int, color, 1));
    }
    moves
}

} // verus!
