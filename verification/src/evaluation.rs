//! Tapered evaluation terms for Antarian Chess.
//!
//! Scores are always from White's perspective (positive = White better).
//! This module computes the middle-game and end-game scores and the material
//! count that decides the blend between them.

use vstd::prelude::*;
use crate::board::{
    file_of, king_square, on_board, pseudo_moves, rank_of, sq_of, Board, Cell,
};
use crate::pieces::forward;
use crate::types::{Color, PieceKind};

verus! {

/// Material values in the middle game, by kind index.
pub const MG: [i32; 6] = [
    10_000, // Emperor
    900,    // Empress
    800,    // Priest  (bishop+knight hybrid - extremely versatile)
    500,    // Paladin (king+dabbaba - short-range, situational)
    600,    // Dragon  (rook that jumps over friendlies - never blocked)
    100,    // Knight  (pawn)
];

/// Material values in the end game, by kind index.
pub const EG: [i32; 6] = [
    10_000, // Emperor
    950,    // Empress  (relatively stronger in open endgames)
    700,    // Priest
    500,    // Paladin
    500,    // Dragon
    150,    // Knight  (pawns become more valuable as promotion nears)
];

/// Middle-game piece-square tables, by kind index, from White's side.
pub const PST_MG: [[i32; 64]; 6] = [
    /* Emperor - safe and central */
    [
        -30, -25, -20, -15, -15, -20, -25, -30, -25, -10, -5, 0, 0, -5, -10, -25, -20, -5, 5, 10,
        10, 5, -5, -20, -15, 0, 10, 20, 20, 10, 0, -15, -15, 0, 10, 20, 20, 10, 0, -15, -20, -5, 5,
        10, 10, 5, -5, -20, -25, -10, -5, 0, 0, -5, -10, -25, -30, -25, -20, -15, -15, -20, -25,
        -30,
    ],
    /* Empress - centralised */
    [
        -20, -10, -10, -5, -5, -10, -10, -20, -10, 0, 5, 5, 5, 5, 0, -10, -10, 5, 10, 15, 15, 10,
        5, -10, -5, 5, 15, 20, 20, 15, 5, -5, -5, 5, 15, 20, 20, 15, 5, -5, -10, 5, 10, 15, 15, 10,
        5, -10, -10, 0, 5, 5, 5, 5, 0, -10, -20, -10, -10, -5, -5, -10, -10, -20,
    ],
    /* Priest - diagonals */
    [
        -20, -10, -10, -10, -10, -10, -10, -20, -10, 0, 5, 5, 5, 5, 0, -10, -10, 5, 15, 20, 20, 15,
        5, -10, -10, 5, 20, 25, 25, 20, 5, -10, -10, 5, 20, 25, 25, 20, 5, -10, -10, 5, 15, 20, 20,
        15, 5, -10, -10, 0, 5, 5, 5, 5, 0, -10, -20, -10, -10, -10, -10, -10, -10, -20,
    ],
    /* Paladin - centre */
    [
        -15, -10, -5, 0, 0, -5, -10, -15, -10, 0, 5, 10, 10, 5, 0, -10, -5, 5, 10, 15, 15, 10, 5,
        -5, 0, 10, 15, 20, 20, 15, 10, 0, 0, 10, 15, 20, 20, 15, 10, 0, -5, 5, 10, 15, 15, 10, 5,
        -5, -10, 0, 5, 10, 10, 5, 0, -10, -15, -10, -5, 0, 0, -5, -10, -15,
    ],
    /* Dragon - openness, 7th rank */
    [
        0, 0, 0, 5, 5, 0, 0, 0, 5, 10, 10, 10, 10, 10, 10, 5, -5, 0, 0, 5, 5, 0, 0, -5, -5, 0, 0,
        5, 5, 0, 0, -5, -5, 0, 0, 5, 5, 0, 0, -5, -5, 0, 0, 5, 5, 0, 0, -5, 5, 10, 10, 10, 10, 10,
        10, 5, 0, 0, 0, 5, 5, 0, 0, 0,
    ],
    /* Knight - rewarded for advancing and central control.
    No promotions exist in Antarian Chess, so values simply increase
    with advancement and favour the centre files. */
    [
        0, 0, 0, 0, 0, 0, 0, 0, // rank 0  (back rank - never here)
        5, 10, 15, 20, 20, 15, 10, 5, // rank 1  (starting rank - push to advance)
        15, 20, 25, 35, 35, 25, 20, 15, // rank 2
        25, 35, 40, 50, 50, 40, 35, 25, // rank 3
        35, 45, 55, 65, 65, 55, 45, 35, // rank 4  (centre control)
        40, 50, 60, 70, 70, 60, 50, 40, // rank 5
        45, 55, 65, 75, 75, 65, 55, 45, // rank 6
        35, 45, 55, 65, 65, 55, 45, 35, // rank 7  (last rank - still valuable)
    ],
];

/// End-game piece-square tables, by kind index, from White's side.
pub const PST_EG: [[i32; 64]; 6] = [
    /* Emperor - run to the centre */
    [
        -50, -40, -30, -20, -20, -30, -40, -50, -30, -20, -10, 0, 0, -10, -20, -30, -20, -10, 20,
        30, 30, 20, -10, -20, -10, 0, 30, 40, 40, 30, 0, -10, -10, 0, 30, 40, 40, 30, 0, -10, -20,
        -10, 20, 30, 30, 20, -10, -20, -30, -20, -10, 0, 0, -10, -20, -30, -50, -40, -30, -20, -20,
        -30, -40, -50,
    ],
    /* Empress - active anywhere */
    [
        -10, -5, -5, 0, 0, -5, -5, -10, -5, 0, 5, 5, 5, 5, 0, -5, -5, 5, 10, 10, 10, 10, 5, -5, 0,
        5, 10, 15, 15, 10, 5, 0, 0, 5, 10, 15, 15, 10, 5, 0, -5, 5, 10, 10, 10, 10, 5, -5, -5, 0,
        5, 5, 5, 5, 0, -5, -10, -5, -5, 0, 0, -5, -5, -10,
    ],
    /* Priest - centralised */
    [
        -10, -5, -5, 0, 0, -5, -5, -10, -5, 0, 5, 5, 5, 5, 0, -5, -5, 5, 10, 15, 15, 10, 5, -5, 0,
        5, 15, 20, 20, 15, 5, 0, 0, 5, 15, 20, 20, 15, 5, 0, -5, 5, 10, 15, 15, 10, 5, -5, -5, 0,
        5, 5, 5, 5, 0, -5, -10, -5, -5, 0, 0, -5, -5, -10,
    ],
    /* Paladin - active */
    [
        -5, 0, 0, 5, 5, 0, 0, -5, 0, 5, 5, 10, 10, 5, 5, 0, 0, 5, 10, 15, 15, 10, 5, 0, 5, 10, 15,
        20, 20, 15, 10, 5, 5, 10, 15, 20, 20, 15, 10, 5, 0, 5, 10, 15, 15, 10, 5, 0, 0, 5, 5, 10,
        10, 5, 5, 0, -5, 0, 0, 5, 5, 0, 0, -5,
    ],
    /* Dragon - active */
    [
        0, 5, 5, 5, 5, 5, 5, 0, 5, 10, 10, 10, 10, 10, 10, 5, 5, 10, 10, 10, 10, 10, 10, 5, 5, 10,
        10, 10, 10, 10, 10, 5, 5, 10, 10, 10, 10, 10, 10, 5, 5, 10, 10, 10, 10, 10, 10, 5, 5, 10,
        10, 10, 10, 10, 10, 5, 0, 5, 5, 5, 5, 5, 5, 0,
    ],
    /* Knight - even more valuable in endgames */
    [
        0, 0, 0, 0, 0, 0, 0, 0, // rank 0
        5, 10, 15, 20, 20, 15, 10, 5, // rank 1
        20, 25, 30, 40, 40, 30, 25, 20, // rank 2
        35, 40, 50, 60, 60, 50, 40, 35, // rank 3
        50, 55, 65, 75, 75, 65, 55, 50, // rank 4
        60, 65, 75, 85, 85, 75, 65, 60, // rank 5
        70, 75, 85, 95, 95, 85, 75, 70, // rank 6
        60, 65, 75, 85, 85, 75, 65, 60, // rank 7
    ],
];


/// Every table entry is small.
pub proof fn lemma_table_bounds(k: int, sq: int)
    requires
        0 <= k < 6,
        0 <= sq < 64,
    ensures
        0 <= MG@[k] <= 10_000,
        0 <= EG@[k] <= 10_000,
        -100 <= PST_MG@[k]@[sq] <= 100,
        -100 <= PST_EG@[k]@[sq] <= 100,
{
    assert(forall|kk: int, s: int|
        0 <= kk < 6 && 0 <= s < 64 ==> -100 <= #[trigger] PST_MG@[kk]@[s] <= 100) by {
    }
    assert(forall|kk: int, s: int|
        0 <= kk < 6 && 0 <= s < 64 ==> -100 <= #[trigger] PST_EG@[kk]@[s] <= 100) by {
    }
}

// ---------------------------------------------------------------------------
// Material and piece-square tables
// ---------------------------------------------------------------------------

/// `v` for White, `-v` for Black.
pub open spec fn signed(color: Color, v: int) -> int {
    if color == Color::White {
        v
    } else {
        -v
    }
}

/// The square mirrored across the middle of the board (rank `r` becomes `7 - r`).
pub open spec fn mirror(sq: int) -> int {
    sq_of(file_of(sq), 7 - rank_of(sq))
}

/// The table square that a piece of `color` on `sq` reads: its own square
/// for White, the mirrored square for Black.
pub open spec fn table_square(color: Color, sq: int) -> int {
    if color == Color::White {
        sq
    } else {
        mirror(sq)
    }
}

/// Middle-game material plus table value of a square, signed by owner.
pub open spec fn square_mg(cell: Cell, sq: int) -> int {
    match cell {
        None => 0,
        Some((c, k)) => signed(c, MG@[k.spec_index()] + PST_MG@[k.spec_index()]@[table_square(c, sq)]),
    }
}

/// End-game material plus table value of a square, signed by owner.
pub open spec fn square_eg(cell: Cell, sq: int) -> int {
    match cell {
        None => 0,
        Some((c, k)) => signed(c, EG@[k.spec_index()] + PST_EG@[k.spec_index()]@[table_square(c, sq)]),
    }
}

pub open spec fn material_mg(cells: Seq<Cell>, n: nat) -> int
    decreases n,
{
    if n == 0 {
        0
    } else {
        material_mg(cells, (n - 1) as nat) + square_mg(cells[n - 1], n - 1)
    }
}

pub open spec fn material_eg(cells: Seq<Cell>, n: nat) -> int
    decreases n,
{
    if n == 0 {
        0
    } else {
        material_eg(cells, (n - 1) as nat) + square_eg(cells[n - 1], n - 1)
    }
}

proof fn lemma_mirror(sq: usize)
    requires
        sq < 64,
    ensures
        (sq ^ 56usize) as int == mirror(sq as int),
        (sq ^ 56usize) < 64,
{
    assert((sq ^ 56usize) == (7 - sq / 8) * 8 + sq % 8) by (bit_vector)
        requires
            sq < 64,
    ;
    assert((sq ^ 56usize) < 64) by (bit_vector)
        requires
            sq < 64,
    ;
}

pub fn kind_index(kind: PieceKind) -> (i: usize)
    ensures
        i == kind.spec_index(),
        i < 6,
{
    kind.index()
}

/// Sum of signed material and table values over all squares, for both phases.
fn material_and_tables(board: &Board) -> (r: (i32, i32))
    ensures
        r.0 == material_mg(board.cells(), 64),
        r.1 == material_eg(board.cells(), 64),
        -646_400 <= r.0 <= 646_400,
        -646_400 <= r.1 <= 646_400,
{
    let mut score_mg: i32 = 0;
    let mut score_eg: i32 = 0;
    let mut sq: usize = 0;
    while sq < 64
        invariant
            sq <= 64,
            score_mg == material_mg(board.cells(), sq as nat),
            score_eg == material_eg(board.cells(), sq as nat),
            -10_100 * sq <= score_mg <= 10_100 * sq,
            -10_100 * sq <= score_eg <= 10_100 * sq,
        decreases 64 - sq,
    {
        match board.get(sq) {
            Some((color, kind)) => {
                let idx = kind_index(kind);
                proof {
                    lemma_mirror(sq);
                }
                let tsq: usize = if color == Color::White { sq } else { sq ^ 56 };
                proof {
                    lemma_table_bounds(idx as int, tsq as int);
                }
                let mg: i32 = MG[idx] + PST_MG[idx][tsq];
                let eg: i32 = EG[idx] + PST_EG[idx][tsq];
                if color == Color::White {
                    score_mg = score_mg + mg;
                    score_eg = score_eg + eg;
                } else {
                    score_mg = score_mg - mg;
                    score_eg = score_eg - eg;
                }
            },
            None => {},
        }
        sq += 1;
    }
    (score_mg, score_eg)
}

// ---------------------------------------------------------------------------
// Phase material
// ---------------------------------------------------------------------------

/// Weight of a piece in the phase count.
pub open spec fn phase_weight(cell: Cell) -> int {
    match cell {
        Some((_, PieceKind::Empress)) => 2,
        Some((_, PieceKind::Priest)) => 2,
        Some((_, PieceKind::Paladin)) => 2,
        Some((_, PieceKind::Dragon)) => 1,
        _ => 0,
    }
}

pub open spec fn phase_sum(cells: Seq<Cell>, n: nat) -> int
    decreases n,
{
    if n == 0 {
        0
    } else {
        phase_sum(cells, (n - 1) as nat) + phase_weight(cells[n - 1])
    }
}

/// Total weighted material on the board (Emperors and Knights weigh nothing):
/// the quantity that moves the evaluation from middle game (14 or more) to
/// end game (0).
pub fn phase_material(board: &Board) -> (total: i32)
    ensures
        total == phase_sum(board.cells(), 64),
        0 <= total <= 128,
{
    let mut total: i32 = 0;
    let mut sq: usize = 0;
    while sq < 64
        invariant
            sq <= 64,
            total == phase_sum(board.cells(), sq as nat),
            0 <= total <= 2 * sq,
        decreases 64 - sq,
    {
        let w: i32 = match board.get(sq) {
            Some((_, PieceKind::Empress)) => 2,
            Some((_, PieceKind::Priest)) => 2,
            Some((_, PieceKind::Paladin)) => 2,
            Some((_, PieceKind::Dragon)) => 1,
            _ => 0,
        };
        total = total + w;
        sq += 1;
    }
    total
}

// ---------------------------------------------------------------------------
// King safety
// ---------------------------------------------------------------------------

pub open spec fn home_rank(color: Color) -> int {
    if color == Color::White {
        0
    } else {
        7
    }
}

/// `bonus` if an own Knight stands on (`f`, `r`).
pub open spec fn shield_at(cells: Seq<Cell>, color: Color, f: int, r: int, bonus: int) -> int {
    if on_board(f, r) && cells[sq_of(f, r)] == Some((color, PieceKind::Knight)) {
        bonus
    } else {
        0
    }
}

/// The Knight shield in front of an Emperor on `k`: 30 for each of the three
/// squares one rank ahead, and, on the home rank, 20 for each of the three
/// squares two ranks ahead.
pub open spec fn shield(cells: Seq<Cell>, color: Color, k: int) -> int {
    let f = file_of(k);
    let r = rank_of(k);
    let fw = forward(color);
    shield_at(cells, color, f - 1, r + fw, 30) + shield_at(cells, color, f, r + fw, 30) + shield_at(
        cells,
        color,
        f + 1,
        r + fw,
        30,
    ) + if r == home_rank(color) {
        shield_at(cells, color, f - 1, r + 2 * fw, 20) + shield_at(cells, color, f, r + 2 * fw, 20)
            + shield_at(cells, color, f + 1, r + 2 * fw, 20)
    } else {
        0
    }
}

/// The penalty for a missing shield: `120 - shield`, at least 0; 0 without an Emperor.
pub open spec fn king_safety_penalty(cells: Seq<Cell>, color: Color) -> int {
    match king_square(cells, color) {
        None => 0,
        Some(k) => if 120 - shield(cells, color, k) > 0 {
            120 - shield(cells, color, k)
        } else {
            0
        },
    }
}

/// `bonus` if an own Knight stands on (`f`, `r`).
fn shield_bonus(board: &Board, color: Color, f: i32, r: i32, bonus: i32) -> (b: i32)
    requires
        -2 <= f <= 9,
        -3 <= r <= 10,
    ensures
        b == shield_at(board.cells(), color, f as int, r as int, bonus as int),
{
    if 0 <= f && f < 8 && 0 <= r && r < 8 {
        let idx: usize = (r * 8 + f) as usize;
        match board.get(idx) {
            Some((pc, PieceKind::Knight)) => {
                if pc == color {
                    bonus
                } else {
                    0
                }
            },
            _ => 0,
        }
    } else {
        0
    }
}

pub fn king_safety(board: &Board, color: Color) -> (penalty: i32)
    ensures
        penalty == king_safety_penalty(board.cells(), color),
        0 <= penalty <= 120,
{
    let emperor_sq: i32 = match board.find_king(color) {
        Some(sq) => sq as i32,
        None => return 0,
    };
    let file: i32 = emperor_sq % 8;
    let rank: i32 = emperor_sq / 8;
    // Front shield: friendly Knights on the three squares in front.
    let fwd: i32 = if color == Color::White { 1 } else { -1 };
    let mut shield: i32 = 0;
    shield = shield + shield_bonus(board, color, file - 1, rank + fwd, 30);
    shield = shield + shield_bonus(board, color, file, rank + fwd, 30);
    shield = shield + shield_bonus(board, color, file + 1, rank + fwd, 30);
    // Two ranks ahead when still on the home rank.
    let home: i32 = if color == Color::White { 0 } else { 7 };
    if rank == home {
        shield = shield + shield_bonus(board, color, file - 1, rank + 2 * fwd, 20);
        shield = shield + shield_bonus(board, color, file, rank + 2 * fwd, 20);
        shield = shield + shield_bonus(board, color, file + 1, rank + 2 * fwd, 20);
    }
    // Penalty: a missing shield is danger.
    if 120 - shield > 0 {
        120 - shield
    } else {
        0
    }
}

// ---------------------------------------------------------------------------
// Mobility
// ---------------------------------------------------------------------------

/// Two points per pseudo-legal move, at most 60.
pub open spec fn mobility_bonus(cells: Seq<Cell>, color: Color) -> int {
    if 2 * pseudo_moves(cells, color).len() < 60 {
        2 * pseudo_moves(cells, color).len() as int
    } else {
        60
    }
}

/// Small bonus for having more moves.
pub fn mobility(board: &Board, color: Color) -> (m: i32)
    ensures
        m == mobility_bonus(board.cells(), color),
        0 <= m <= 60,
{
    let n: u32 = board.count_all_moves(color);
    if n < 30 {
        (n as i32) * 2
    } else {
        60
    }
}

// ---------------------------------------------------------------------------
// Knight structure, development, centre
// ---------------------------------------------------------------------------

/// An own Knight stands on `sq`.
pub open spec fn own_knight(cells: Seq<Cell>, color: Color, sq: int) -> bool {
    cells[sq] == Some((color, PieceKind::Knight))
}

/// The rank that a side's Knights start on.
pub open spec fn knight_home_rank(color: Color) -> int {
    if color == Color::White {
        1
    } else {
        6
    }
}

/// For an own Knight on `sq`: 15 for each own Knight beside it on the same
/// rank, and 8 per rank it has advanced from its home rank towards the enemy.
/// Both colours earn the advancement bonus alike (White from rank 1 upwards,
/// Black from rank 6 downwards), so that the scores, which are from White's
/// side, are negated when the colours are swapped and the board is mirrored.
pub open spec fn knight_bonus(cells: Seq<Cell>, color: Color, sq: int) -> int {
    if own_knight(cells, color, sq) {
        (if file_of(sq) > 0 && own_knight(cells, color, sq - 1) { 15int } else { 0int }) + (if file_of(
            sq,
        ) < 7 && own_knight(cells, color, sq + 1) {
            15int
        } else {
            0int
        }) + knight_advance(color, rank_of(sq)) * 8
    } else {
        0
    }
}

/// How many ranks a Knight on `rank` has advanced from its home rank towards
/// the enemy (0 when it has not).
pub open spec fn knight_advance(color: Color, rank: int) -> int {
    if color == Color::White {
        if rank > 1 {
            rank - 1
        } else {
            0
        }
    } else {
        if rank < 6 {
            6 - rank
        } else {
            0
        }
    }
}

pub open spec fn knight_structure_sum(cells: Seq<Cell>, color: Color, n: nat) -> int
    decreases n,
{
    if n == 0 {
        0
    } else {
        knight_structure_sum(cells, color, (n - 1) as nat) + knight_bonus(cells, color, n - 1)
    }
}

pub fn knight_structure(board: &Board, color: Color) -> (bonus: i32)
    ensures
        bonus == knight_structure_sum(board.cells(), color, 64),
        0 <= bonus <= 90 * 64,
{
    let mut bonus: i32 = 0;
    let home: usize = if color == Color::White { 1 } else { 6 };
    let mut sq: usize = 0;
    while sq < 64
        invariant
            sq <= 64,
            home == knight_home_rank(color),
            bonus == knight_structure_sum(board.cells(), color, sq as nat),
            0 <= bonus <= 90 * sq,
        decreases 64 - sq,
    {
        if is_own_knight(board, color, sq) {
            let rank: usize = sq / 8;
            let file: usize = sq % 8;
            // Connected Knights
            if file > 0 && is_own_knight(board, color, sq - 1) {
                bonus = bonus + 15;
            }
            if file < 7 && is_own_knight(board, color, sq + 1) {
                bonus = bonus + 15;
            }
            // Advancement towards the enemy, on top of the tables
            if color == Color::White && rank > home {
                bonus = bonus + (rank as i32 - home as i32) * 8;
            } else if color == Color::Black && rank < home {
                bonus = bonus + (home as i32 - rank as i32) * 8;
            }
        }
        sq += 1;
    }
    bonus
}

fn is_own_knight(board: &Board, color: Color, sq: usize) -> (r: bool)
    requires
        sq < 64,
    ensures
        r == own_knight(board.cells(), color, sq as int),
{
    match board.get(sq) {
        Some((pc, PieceKind::Knight)) => pc == color,
        _ => false,
    }
}

/// The development penalty of a back-rank piece (none for the Emperor).
pub open spec fn back_rank_penalty(kind: PieceKind) -> int {
    match kind {
        PieceKind::Empress => 14,
        PieceKind::Priest => 10,
        PieceKind::Paladin => 10,
        PieceKind::Dragon => 7,
        PieceKind::Knight => 6,
        PieceKind::Emperor => 0,
    }
}

/// Penalties for own pieces on the first `n` files of the back rank, and for
/// own Knights on the first `n` files of their home rank.
pub open spec fn development_sum(cells: Seq<Cell>, color: Color, n: nat) -> int
    decreases n,
{
    if n == 0 {
        0
    } else {
        let f = n - 1;
        development_sum(cells, color, (n - 1) as nat) - (match cells[sq_of(f, home_rank(color))] {
            Some((pc, kind)) => if pc == color {
                back_rank_penalty(kind)
            } else {
                0
            },
            None => 0,
        }) - (if own_knight(cells, color, sq_of(f, knight_home_rank(color))) {
            8int
        } else {
            0int
        })
    }
}

/// Penalise pieces that are still on their starting back rank (not developed)
/// and Knights still on their starting rank.
pub fn development(board: &Board, color: Color) -> (score: i32)
    ensures
        score == development_sum(board.cells(), color, 8),
        -200 <= score <= 0,
{
    let back_rank: usize = if color == Color::White { 0 } else { 7 };
    let pawn_rank: usize = if color == Color::White { 1 } else { 6 };
    let mut score: i32 = 0;
    let mut file: usize = 0;
    while file < 8
        invariant
            file <= 8,
            back_rank == home_rank(color),
            pawn_rank == knight_home_rank(color),
            score == development_sum(board.cells(), color, file as nat),
            -22 * file <= score <= 0,
        decreases 8 - file,
    {
        let sq = back_rank * 8 + file;
        match board.get(sq) {
            Some((pc, kind)) => {
                if pc == color {
                    let p: i32 = match kind {
                        PieceKind::Empress => 14,
                        PieceKind::Priest => 10,
                        PieceKind::Paladin => 10,
                        PieceKind::Dragon => 7,
                        PieceKind::Knight => 6,
                        PieceKind::Emperor => 0,
                    };
                    score = score - p;
                }
            },
            None => {},
        }
        if is_own_knight(board, color, pawn_rank * 8 + file) {
            score = score - 8;
        }
        file += 1;
    }
    score
}

/// The four central squares d4, e4, d5, e5.
pub const CENTRE: [usize; 4] = [27, 28, 35, 36];

pub open spec fn centre_points(cells: Seq<Cell>, color: Color, sq: int) -> int {
    match cells[sq] {
        Some((pc, _)) => if pc == color {
            12
        } else {
            0
        },
        None => 0,
    }
}

/// 12 for each own piece on a central square.
pub open spec fn centre_sum(cells: Seq<Cell>, color: Color) -> int {
    centre_points(cells, color, 27) + centre_points(cells, color, 28) + centre_points(
        cells,
        color,
        35,
    ) + centre_points(cells, color, 36)
}

/// Bonus for controlling the four central squares.
pub fn centre_control(board: &Board, color: Color) -> (score: i32)
    ensures
        score == centre_sum(board.cells(), color),
        0 <= score <= 48,
{
    let mut score: i32 = 0;
    let mut i: usize = 0;
    while i < 4
        invariant
            i <= 4,
            0 <= score <= 12 * i,
            score == (if i > 0 { centre_points(board.cells(), color, 27) } else { 0 }) + (if i
                > 1 {
                centre_points(board.cells(), color, 28)
            } else {
                0
            }) + (if i > 2 { centre_points(board.cells(), color, 35) } else { 0 }) + (if i > 3 {
                centre_points(board.cells(), color, 36)
            } else {
                0
            }),
        decreases 4 - i,
    {
        let sq = CENTRE[i];
        match board.get(sq) {
            Some((pc, _)) => {
                if pc == color {
                    score = score + 12;
                }
            },
            None => {},
        }
        i += 1;
    }
    score
}

// ---------------------------------------------------------------------------
// The two phase scores
// ---------------------------------------------------------------------------

/// `d / 2` rounded towards zero.
pub open spec fn half_toward_zero(d: int) -> int {
    if d >= 0 {
        d / 2
    } else {
        -((-d) / 2)
    }
}

/// The middle-game score: material and tables, Knight structure,
/// development, centre control, twice the king-safety penalties, mobility.
pub open spec fn middle_game_score(cells: Seq<Cell>) -> int {
    material_mg(cells, 64) + knight_structure_sum(cells, Color::White, 64) - knight_structure_sum(
        cells,
        Color::Black,
        64,
    ) + development_sum(cells, Color::White, 8) - development_sum(cells, Color::Black, 8)
        + centre_sum(cells, Color::White) - centre_sum(cells, Color::Black) - king_safety_penalty(
        cells,
        Color::White,
    ) * 2 + king_safety_penalty(cells, Color::Black) * 2 + mobility_bonus(cells, Color::White)
        - mobility_bonus(cells, Color::Black)
}

/// The end-game score: material and tables, and half the mobility difference.
pub open spec fn end_game_score(cells: Seq<Cell>) -> int {
    material_eg(cells, 64) + half_toward_zero(
        mobility_bonus(cells, Color::White) - mobility_bonus(cells, Color::Black),
    )
}

/// The middle-game and end-game scores of a position, from White's side.
/// The evaluation blends them by the phase that `phase_material` measures.
pub fn evaluate_phases(board: &Board) -> (scores: (i32, i32))
    ensures
        scores.0 == middle_game_score(board.cells()),
        scores.1 == end_game_score(board.cells()),
{
    // ----- material + tables -----
    let (mut score_mg, mut score_eg) = material_and_tables(board);
    // ----- knight structure (midgame quality) -----
    score_mg = score_mg + knight_structure(board, Color::White);
    score_mg = score_mg - knight_structure(board, Color::Black);
    // ----- development (midgame only) -----
    score_mg = score_mg + development(board, Color::White);
    score_mg = score_mg - development(board, Color::Black);
    // ----- centre control (midgame only) -----
    score_mg = score_mg + centre_control(board, Color::White);
    score_mg = score_mg - centre_control(board, Color::Black);
    // ----- king safety (midgame only) -----
    let ks_w = king_safety(board, Color::White);
    let ks_b = king_safety(board, Color::Black);
    score_mg = score_mg - ks_w * 2;
    score_mg = score_mg + ks_b * 2;
    // ----- mobility (both phases) -----
    let mob_w = mobility(board, Color::White);
    let mob_b = mobility(board, Color::Black);
    score_mg = score_mg + (mob_w - mob_b);
    let d: i32 = mob_w - mob_b;
    score_eg = score_eg + if d >= 0 { d / 2 } else { -((-d) / 2) };
    (score_mg, score_eg)
}

} // verus!
