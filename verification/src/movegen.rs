//! Move generation along directions (sliders) and by offsets (leapers).

use vstd::prelude::*;
use crate::board::{Board, Cell};
use crate::rays::{
    generate_ray_moves, is_direction, leaper_moves, ray, slide_moves, LeaperSet, DIR_OFFSETS,
};
use crate::types::{Color, Move};

verus! {

/// The moves along one direction; nothing for a pair that is not one of the
/// eight king directions.
pub open spec fn direction_moves(
    cells: Seq<Cell>,
    from: int,
    d: (i8, i8),
    color: Color,
    captures_only: bool,
    jump: bool,
) -> Seq<Move> {
    if is_direction(d.0 as int, d.1 as int) {
        slide_moves(cells, from, ray(from, d.0 as int, d.1 as int), color, captures_only, jump)
    } else {
        seq![]
    }
}

/// The moves along each of `dirs`, in order.
pub open spec fn sliding_moves(
    cells: Seq<Cell>,
    from: int,
    dirs: Seq<(i8, i8)>,
    color: Color,
    captures_only: bool,
    jump: bool,
) -> Seq<Move>
    decreases dirs.len(),
{
    if dirs.len() == 0 {
        seq![]
    } else {
        sliding_moves(cells, from, dirs.drop_last(), color, captures_only, jump) + direction_moves(
            cells,
            from,
            dirs.last(),
            color,
            captures_only,
            jump,
        )
    }
}

/// The index of a king direction in `DIR_OFFSETS`.
fn direction_index(df: i8, dr: i8) -> (d: Option<usize>)
    ensures
        is_direction(df as int, dr as int) <==> d.is_some(),
        d matches Some(i) ==> i < 8 && DIR_OFFSETS@[i as int] == (df, dr),
{
    match (df, dr) {
        (-1, -1) => Some(0),
        (-1, 0) => Some(1),
        (-1, 1) => Some(2),
        (0, -1) => Some(3),
        (0, 1) => Some(4),
        (1, -1) => Some(5),
        (1, 0) => Some(6),
        (1, 1) => Some(7),
        _ => None,
    }
}

/// Sliding moves in the given directions.
/// If `jump` is true, the piece can pass through occupied squares
/// (capturing opponent pieces, skipping own pieces).
/// If `captures_only` is true, only capture moves are generated.
pub fn generate_sliding_moves(
    board: &Board,
    from: usize,
    color: Color,
    directions: &[(i8, i8)],
    jump: bool,
    captures_only: bool,
) -> (moves: Vec<Move>)
    requires
        from < 64,
    ensures
        moves@ == sliding_moves(board.cells(), from as int, directions@, color, captures_only, jump),
{
    let mut moves: Vec<Move> = Vec::new();
    let sqs = board.squares();
    let n = directions.len();
    let mut i: usize = 0;
    proof {
        assert(directions@.take(0) =~= Seq::<(i8, i8)>::empty());
    }
    while i < n
        invariant
            from < 64,
            n == directions@.len(),
            sqs@ == board.cells(),
            0 <= i <= n,
            moves@ == sliding_moves(
                board.cells(),
                from as int,
                directions@.take(i as int),
                color,
                captures_only,
                jump,
            ),
        decreases n - i,
    {
        let (df, dr) = directions[i];
        proof {
            assert(directions@.take(i + 1).drop_last() =~= directions@.take(i as int));
            assert(directions@.take(i + 1).last() == (df, dr));
        }
        match direction_index(df, dr) {
            Some(dir) => {
                generate_ray_moves(from, dir, sqs, color, captures_only, jump, &mut moves);
            },
            None => {
                proof {
                    assert(moves@ =~= moves@ + Seq::<Move>::empty());
                }
            },
        }
        i += 1;
    }
    proof {
        assert(directions@.take(n as int) =~= directions@);
    }
    moves
}

/// Leaper moves defined by `offsets`.
pub fn generate_leaper_moves(
    board: &Board,
    from: usize,
    color: Color,
    offsets: &'static [(i8, i8)],
    jump: bool,
    captures_only: bool,
) -> (moves: Vec<Move>)
    requires
        from < 64,
    ensures
        moves@ == leaper_moves(board.cells(), from as int, offsets@, color, captures_only, jump),
{
    let mut moves: Vec<Move> = Vec::new();
    let sqs = board.squares();
    let set = LeaperSet::new(offsets);
    set.generate(from, sqs, color, captures_only, jump, &mut moves);
    proof {
        assert(moves@ =~= leaper_moves(
            board.cells(),
            from as int,
            offsets@,
            color,
            captures_only,
            jump,
        ));
    }
    moves
}

} // verus!
