//! Rays (squares along a direction up to the edge) and leaper offsets, and
//! the moves that walking them produces.

use vstd::prelude::*;
use crate::board::{abs, file_of, on_board, rank_of, sign, sq_of, step, Cell};
use crate::types::{Color, Move, PieceKind};

verus! {

/// The eight king directions, indexed 0..8.
pub const DIR_OFFSETS: [(i8, i8); 8] = [
    (-1, -1),
    (-1, 0),
    (-1, 1),
    (0, -1),
    (0, 1),
    (1, -1),
    (1, 0),
    (1, 1),
];

/// Whether `(df, dr)` is one of the eight king directions.
pub open spec fn is_direction(df: int, dr: int) -> bool {
    -1 <= df <= 1 && -1 <= dr <= 1 && !(df == 0 && dr == 0)
}

/// The move record from `from` to `to`.
pub open spec fn mv(from: int, to: int, capture: bool) -> Move {
    Move { from: from as u8, to: to as u8, capture }
}

pub open spec fn min(a: int, b: int) -> int {
    if a <= b {
        a
    } else {
        b
    }
}

/// How many steps a coordinate can take in direction `d` before leaving the board.
pub open spec fn steps_to_edge(x: int, d: int) -> int {
    if d > 0 {
        7 - x
    } else if d < 0 {
        x
    } else {
        7
    }
}

pub open spec fn ray_len(sq: int, df: int, dr: int) -> int {
    min(steps_to_edge(file_of(sq), df), steps_to_edge(rank_of(sq), dr))
}

/// The squares from `sq` (exclusive) in direction `(df, dr)` up to the edge,
/// nearest first.
pub open spec fn ray(sq: int, df: int, dr: int) -> Seq<int> {
    Seq::new(
        ray_len(sq, df, dr) as nat,
        |i: int| sq_of(step(file_of(sq), i + 1, df), step(rank_of(sq), i + 1, dr)),
    )
}

/// The moves of a piece on `from` walking the squares `targets` in order:
/// an empty square gives a quiet move (unless only captures are wanted), an
/// enemy piece gives a capture, an own piece gives nothing.  Without `jump`
/// the walk ends at the first occupied square; with `jump` it goes on.
pub open spec fn slide_moves(
    cells: Seq<Cell>,
    from: int,
    targets: Seq<int>,
    color: Color,
    captures_only: bool,
    jump: bool,
) -> Seq<Move>
    decreases targets.len(),
{
    if targets.len() == 0 {
        seq![]
    } else {
        let t = targets[0];
        let rest = slide_moves(cells, from, targets.drop_first(), color, captures_only, jump);
        match cells[t] {
            None => if captures_only {
                rest
            } else {
                seq![mv(from, t, false)] + rest
            },
            Some((pc, _)) => {
                let head = if pc != color {
                    seq![mv(from, t, true)]
                } else {
                    seq![]
                };
                if jump {
                    head + rest
                } else {
                    head
                }
            },
        }
    }
}

/// Whether some square of `targets` is occupied.
pub open spec fn any_occupied(cells: Seq<Cell>, targets: Seq<int>) -> bool {
    exists|i: int| 0 <= i < targets.len() && (#[trigger] cells[targets[i]]) is Some
}

pub proof fn lemma_ray_facts(sq: int, df: int, dr: int)
    requires
        0 <= sq < 64,
        is_direction(df, dr),
    ensures
        0 <= ray_len(sq, df, dr) <= 7,
        forall|k: int|
            #![trigger step(file_of(sq), k, df)]
            0 <= k ==> (on_board(step(file_of(sq), k, df), step(rank_of(sq), k, dr)) <==> k
                <= ray_len(sq, df, dr)),
        forall|i: int|
            0 <= i < ray_len(sq, df, dr) ==> 0 <= #[trigger] ray(sq, df, dr)[i] < 64,
{
}

/// Walk direction `direction` (an index into the eight king directions) from
/// `sq`, appending the moves that `slide_moves` describes to `moves`.
/// Returns `true` if the walk was stopped by an occupied square (never with
/// `can_jump`).
pub fn generate_ray_moves(
    sq: usize,
    direction: usize,
    board: &[Option<(Color, PieceKind)>; 64],
    color: Color,
    captures_only: bool,
    can_jump: bool,
    moves: &mut Vec<Move>,
) -> (blocked: bool)
    requires
        sq < 64,
        direction < 8,
    ensures
        ({
            let (df, dr) = DIR_OFFSETS@[direction as int];
            let targets = ray(sq as int, df as int, dr as int);
            &&& final(moves)@ == old(moves)@ + slide_moves(
                board@,
                sq as int,
                targets,
                color,
                captures_only,
                can_jump,
            )
            &&& blocked == (!can_jump && any_occupied(board@, targets))
        }),
{
    let (df, dr) = DIR_OFFSETS[direction];
    let ghost targets = ray(sq as int, df as int, dr as int);
    let ghost total = slide_moves(board@, sq as int, targets, color, captures_only, can_jump);
    let f: i8 = (sq % 8) as i8;
    let r: i8 = (sq / 8) as i8;
    proof {
        lemma_ray_facts(sq as int, df as int, dr as int);
        assert(targets.skip(0) =~= targets);
    }
    let mut k: usize = 0;
    let mut cf: i8 = f + df;
    let mut cr: i8 = r + dr;
    while 0 <= cf && cf < 8 && 0 <= cr && cr < 8
        invariant
            sq < 64,
            direction < 8,
            (df, dr) == DIR_OFFSETS@[direction as int],
            is_direction(df as int, dr as int),
            f == file_of(sq as int),
            r == rank_of(sq as int),
            targets == ray(sq as int, df as int, dr as int),
            total == slide_moves(board@, sq as int, targets, color, captures_only, can_jump),
            0 <= k <= targets.len(),
            cf == step(f as int, k + 1, df as int),
            cr == step(r as int, k + 1, dr as int),
            old(moves)@ + total == moves@ + slide_moves(
                board@,
                sq as int,
                targets.skip(k as int),
                color,
                captures_only,
                can_jump,
            ),
            !can_jump ==> forall|i: int| 0 <= i < k ==> (#[trigger] board@[targets[i]]) is None,
            forall|kk: int|
                #![trigger step(file_of(sq as int), kk, df as int)]
                0 <= kk ==> (on_board(
                    step(file_of(sq as int), kk, df as int),
                    step(rank_of(sq as int), kk, dr as int),
                ) <==> kk <= ray_len(sq as int, df as int, dr as int)),
        decreases targets.len() - k,
    {
        proof {
            assert(on_board(
                step(file_of(sq as int), k + 1, df as int),
                step(rank_of(sq as int), k + 1, dr as int),
            ));
        }
        let target: usize = (cr * 8 + cf) as usize;
        let ghost rest = targets.skip(k as int);
        proof {
            assert(target == targets[k as int]);
            assert(rest[0] == targets[k as int]);
            assert(rest.drop_first() =~= targets.skip(k + 1));
        }
        match board[target] {
            None => {
                if !captures_only {
                    moves.push(Move { from: sq as u8, to: target as u8, capture: false });
                }
            },
            Some((pc, _)) => {
                if pc != color {
                    moves.push(Move { from: sq as u8, to: target as u8, capture: true });
                }
                if !can_jump {
                    proof {
                        assert(moves@ =~= old(moves)@ + total);
                        assert(board@[targets[k as int]] is Some);
                    }
                    return true;
                }
            },
        }
        proof {
            assert(moves@ + slide_moves(
                board@,
                sq as int,
                targets.skip(k + 1),
                color,
                captures_only,
                can_jump,
            ) =~= old(moves)@ + total);
        }
        cf = cf + df;
        cr = cr + dr;
        k += 1;
    }
    proof {
        assert(k == targets.len());
        assert(targets.skip(k as int).len() == 0);
        assert(moves@ =~= old(moves)@ + total);
        if !can_jump {
            assert(!any_occupied(board@, targets));
        }
    }
    false
}


/// Whether the square passed over on the way to a leap of `(df, dr)` from
/// (`f`, `r`) is occupied.  Only leaps that are longer along one axis have
/// such a square: one step along the longer axis.
pub open spec fn leg_blocked(cells: Seq<Cell>, f: int, r: int, df: int, dr: int) -> bool {
    if abs(df) > abs(dr) {
        cells[sq_of(f + sign(df), r)] is Some
    } else if abs(dr) > abs(df) {
        cells[sq_of(f, r + sign(dr))] is Some
    } else {
        false
    }
}

/// The move (if any) of a leap of `off` from `from`: none off the board or,
/// without `jump`, over an occupied leg; a quiet move onto an empty square
/// (unless only captures are wanted); a capture of an enemy piece.
pub open spec fn leap_moves(
    cells: Seq<Cell>,
    from: int,
    off: (i8, i8),
    color: Color,
    captures_only: bool,
    jump: bool,
) -> Seq<Move> {
    let f = file_of(from);
    let r = rank_of(from);
    let tf = f + off.0;
    let tr = r + off.1;
    let to = sq_of(tf, tr);
    if !on_board(tf, tr) {
        seq![]
    } else if !jump && leg_blocked(cells, f, r, off.0 as int, off.1 as int) {
        seq![]
    } else {
        match cells[to] {
            None => if captures_only {
                seq![]
            } else {
                seq![mv(from, to, false)]
            },
            Some((pc, _)) => if pc != color {
                seq![mv(from, to, true)]
            } else {
                seq![]
            },
        }
    }
}

/// The moves of all the leaps in `offsets`, in order.
pub open spec fn leaper_moves(
    cells: Seq<Cell>,
    from: int,
    offsets: Seq<(i8, i8)>,
    color: Color,
    captures_only: bool,
    jump: bool,
) -> Seq<Move>
    decreases offsets.len(),
{
    if offsets.len() == 0 {
        seq![]
    } else {
        leaper_moves(cells, from, offsets.drop_last(), color, captures_only, jump) + leap_moves(
            cells,
            from,
            offsets.last(),
            color,
            captures_only,
            jump,
        )
    }
}

/// A fixed set of leaper offsets.
pub struct LeaperSet {
    offsets: &'static [(i8, i8)],
}

impl LeaperSet {
    /// The offsets of the set.
    pub closed spec fn offsets(&self) -> Seq<(i8, i8)> {
        self.offsets@
    }

    pub fn new(offsets: &'static [(i8, i8)]) -> (s: Self)
        ensures
            s.offsets() == offsets@,
    {
        Self { offsets }
    }

    /// Append the moves of every leap of the set from `sq` to `moves`.
    pub fn generate(
        &self,
        sq: usize,
        board: &[Option<(Color, PieceKind)>; 64],
        color: Color,
        captures_only: bool,
        can_jump: bool,
        moves: &mut Vec<Move>,
    )
        requires
            sq < 64,
        ensures
            final(moves)@ == old(moves)@ + leaper_moves(
                board@,
                sq as int,
                self.offsets(),
                color,
                captures_only,
                can_jump,
            ),
    {
        let f: i16 = (sq % 8) as i16;
        let r: i16 = (sq / 8) as i16;
        let n = self.offsets.len();
        let mut i: usize = 0;
        proof {
            assert(self.offsets@.take(0) =~= Seq::<(i8, i8)>::empty());
        }
        while i < n
            invariant
                sq < 64,
                n == self.offsets@.len(),
                self.offsets() == self.offsets@,
                f == file_of(sq as int),
                r == rank_of(sq as int),
                0 <= i <= n,
                moves@ == old(moves)@ + leaper_moves(
                    board@,
                    sq as int,
                    self.offsets@.take(i as int),
                    color,
                    captures_only,
                    can_jump,
                ),
            decreases n - i,
        {
            let (df, dr) = self.offsets[i];
            let ghost before = moves@;
            proof {
                assert(self.offsets@.take(i + 1).drop_last() =~= self.offsets@.take(i as int));
                assert(self.offsets@.take(i + 1).last() == (df, dr));
            }
            let tf: i16 = f + df as i16;
            let tr: i16 = r + dr as i16;
            if 0 <= tf && tf < 8 && 0 <= tr && tr < 8 {
                let mut blocked = false;
                if !can_jump {
                    let adf: i16 = if df < 0 { -(df as i16) } else { df as i16 };
                    let adr: i16 = if dr < 0 { -(dr as i16) } else { dr as i16 };
                    if adf > adr {
                        let s: i16 = if df > 0 { 1 } else { -1 };
                        let inter: usize = (r * 8 + (f + s)) as usize;
                        blocked = board[inter].is_some();
                    } else if adr > adf {
                        let s: i16 = if dr > 0 { 1 } else { -1 };
                        let inter: usize = ((r + s) * 8 + f) as usize;
                        blocked = board[inter].is_some();
                    }
                }
                if !blocked {
                    let to: usize = (tr * 8 + tf) as usize;
                    match board[to] {
                        None => {
                            if !captures_only {
                                moves.push(Move { from: sq as u8, to: to as u8, capture: false });
                            }
                        },
                        Some((pc, _)) => {
                            if pc != color {
                                moves.push(Move { from: sq as u8, to: to as u8, capture: true });
                            }
                        },
                    }
                }
            }
            proof {
                assert(moves@ =~= before + leap_moves(
                    board@,
                    sq as int,
                    (df, dr),
                    color,
                    captures_only,
                    can_jump,
                ));
            }
            i += 1;
        }
        proof {
            assert(self.offsets@.take(n as int) =~= self.offsets@);
        }
    }
}

} // verus!
