//! The board: 64 squares, the side to move, and the incrementally kept
//! position hash; move making, move generation, check and game results.

use vstd::prelude::*;
use crate::types::{Color, GameResult, Move, PieceKind};
use crate::pieces::{
    dragon_moves, emperor_moves, empress_moves, forward, generate_dragon_moves,
    generate_emperor_moves, generate_empress_moves, generate_knight_moves, generate_paladin_moves,
    generate_priest_moves, knight_moves, paladin_moves, priest_moves,
};
use crate::move_facts::{lemma_moves_for, lemma_moves_of_side, side_move};
use crate::zobrist::{
    cell_key, compute_zobrist, key_fold, lemma_key_fold_update, lemma_xor_twice, lemma_xor_zero,
    position_hash, zobrist_piece_square, ZOBRIST_SIDE,
};

verus! {

/// What stands on a square.
pub type Cell = Option<(Color, PieceKind)>;

// ---------------------------------------------------------------------------
// Geometry
// ---------------------------------------------------------------------------

/// Whether file `f` and rank `r` lie on the board.
pub open spec fn on_board(f: int, r: int) -> bool {
    0 <= f < 8 && 0 <= r < 8
}

/// The square index of file `f` and rank `r`.
pub open spec fn sq_of(f: int, r: int) -> int {
    r * 8 + f
}

pub open spec fn file_of(sq: int) -> int {
    sq % 8
}

pub open spec fn rank_of(sq: int) -> int {
    sq / 8
}

/// `x` moved `k` steps in the direction of the sign of `d`.
pub open spec fn step(x: int, k: int, d: int) -> int {
    if d > 0 {
        x + k
    } else if d < 0 {
        x - k
    } else {
        x
    }
}

pub open spec fn sign(d: int) -> int {
    if d > 0 {
        1
    } else if d < 0 {
        -1
    } else {
        0
    }
}

pub open spec fn abs(d: int) -> int {
    if d < 0 {
        -d
    } else {
        d
    }
}

/// Split a square index into (file, rank).
pub fn index_to_coord(idx: usize) -> (fr: (i8, i8))
    ensures
        fr.0 == idx % 8,
        fr.1 == (idx / 8) as i8,
        idx < 64 ==> fr.1 == idx / 8,
{
    ((idx % 8) as i8, (idx / 8) as i8)
}

/// The square at (file, rank), if it lies on the board.
pub fn coord_to_index(file: i8, rank: i8) -> (idx: Option<usize>)
    ensures
        on_board(file as int, rank as int) ==> idx == Some(sq_of(file as int, rank as int) as usize),
        !on_board(file as int, rank as int) ==> idx.is_none(),
{
    if 0 <= file && file < 8 && 0 <= rank && rank < 8 {
        Some((rank * 8 + file) as usize)
    } else {
        None
    }
}

// ---------------------------------------------------------------------------
// The board
// ---------------------------------------------------------------------------

#[derive(Clone)]
pub struct Board {
    pub squares: [Option<(Color, PieceKind)>; 64],
    pub turn: Color,
    pub zobrist: u64,
}

/// The squares after moving the contents of `from` to `to`: `from` is
/// emptied and `to` receives whatever stood on `from`.
pub open spec fn cells_after_move(cells: Seq<Cell>, from: int, to: int) -> Seq<Cell> {
    cells.update(from, None).update(to, cells[from])
}

/// The back rank, file by file.
pub open spec fn back_rank_kind(file: int) -> PieceKind {
    if file == 0 || file == 7 {
        PieceKind::Dragon
    } else if file == 1 || file == 6 {
        PieceKind::Priest
    } else if file == 2 || file == 5 {
        PieceKind::Paladin
    } else if file == 3 {
        PieceKind::Emperor
    } else {
        PieceKind::Empress
    }
}

/// The starting position, square by square.
pub open spec fn initial_cell(sq: int) -> Cell {
    let r = rank_of(sq);
    if r == 0 {
        Some((Color::White, back_rank_kind(file_of(sq))))
    } else if r == 1 {
        Some((Color::White, PieceKind::Knight))
    } else if r == 6 {
        Some((Color::Black, PieceKind::Knight))
    } else if r == 7 {
        Some((Color::Black, back_rank_kind(file_of(sq))))
    } else {
        None
    }
}

pub open spec fn initial_cells() -> Seq<Cell> {
    Seq::new(64, |sq: int| initial_cell(sq))
}

/// The hash key of a square's contents (0 when empty).
pub fn cell_key_of(cell: Option<(Color, PieceKind)>, sq: usize) -> (key: u64)
    requires
        sq < 64,
    ensures
        key == cell_key(cell, sq as int),
{
    match cell {
        Some((color, kind)) => zobrist_piece_square(color, kind, sq),
        None => 0,
    }
}

/// The incremental hash update of a move gives the hash of the new position.
pub proof fn lemma_move_hash(c0: Seq<Cell>, from: int, to: int, turn: Color)
    requires
        c0.len() == 64,
        0 <= from < 64,
        0 <= to < 64,
    ensures
        ({
            let piece = c0[from];
            let c1 = c0.update(from, None);
            position_hash(c0, turn) ^ cell_key(piece, from) ^ cell_key(c1[to], to) ^ cell_key(
                piece,
                to,
            ) ^ ZOBRIST_SIDE == position_hash(cells_after_move(c0, from, to), turn.spec_opposite())
        }),
{
    let piece = c0[from];
    let c1 = c0.update(from, None);
    let c2 = c1.update(to, piece);
    assert(c2 =~= cells_after_move(c0, from, to));
    lemma_key_fold_update(c0, from, None, 64);
    lemma_key_fold_update(c1, to, piece, 64);
    let k0 = key_fold(c0, 64);
    let a = cell_key(piece, from);
    let b = cell_key(c1[to], to);
    let c = cell_key(piece, to);
    assert(cell_key(None, from) == 0u64);
    lemma_xor_zero(k0 ^ a);
    let s = if turn == Color::Black { ZOBRIST_SIDE } else { 0u64 };
    let t = if turn.spec_opposite() == Color::Black { ZOBRIST_SIDE } else { 0u64 };
    assert(key_fold(c2, 64) == k0 ^ a ^ b ^ c);
    assert(t == s ^ ZOBRIST_SIDE) by {
        if turn == Color::Black {
            lemma_xor_twice(0u64, ZOBRIST_SIDE);
            assert(ZOBRIST_SIDE ^ ZOBRIST_SIDE == 0u64) by (bit_vector);
        } else {
            assert(0u64 ^ ZOBRIST_SIDE == ZOBRIST_SIDE) by (bit_vector);
        }
    }
    assert(((k0 ^ s) ^ a ^ b ^ c ^ ZOBRIST_SIDE) == (k0 ^ a ^ b ^ c) ^ (s ^ ZOBRIST_SIDE))
        by (bit_vector);
}

impl Board {
    /// The 64 squares.
    pub open spec fn cells(&self) -> Seq<Cell> {
        self.squares@
    }

    /// The stored hash agrees with a hash computed from scratch.
    pub open spec fn hash_consistent(&self) -> bool {
        self.zobrist == position_hash(self.cells(), self.turn)
    }

    pub proof fn lemma_cells_len(&self)
        ensures
            self.cells().len() == 64,
    {
    }

    pub fn empty() -> (b: Self)
        ensures
            b.cells() == Seq::new(64, |i: int| None::<(Color, PieceKind)>),
            b.turn == Color::White,
            b.zobrist == 0,
    {
        let b = Board { squares: [None; 64], turn: Color::White, zobrist: 0 };
        assert(b.cells() =~= Seq::new(64, |i: int| None::<(Color, PieceKind)>));
        b
    }

    pub fn set(&mut self, square: usize, piece: Option<(Color, PieceKind)>)
        requires
            square < 64,
        ensures
            final(self).cells() == old(self).cells().update(square as int, piece),
            final(self).turn == old(self).turn,
            final(self).zobrist == old(self).zobrist,
    {
        self.squares[square] = piece;
    }

    pub fn get(&self, square: usize) -> (p: Option<(Color, PieceKind)>)
        requires
            square < 64,
        ensures
            p == self.cells()[square as int],
    {
        self.squares[square]
    }

    /// The squares array.
    pub fn squares(&self) -> (s: &[Option<(Color, PieceKind)>; 64])
        ensures
            s@ == self.cells(),
    {
        &self.squares
    }

    pub fn initial() -> (b: Self)
        ensures
            b.cells() == initial_cells(),
            b.turn == Color::White,
            b.hash_consistent(),
    {
        let mut board = Self::empty();
        let back: [PieceKind; 8] = [
            PieceKind::Dragon,
            PieceKind::Priest,
            PieceKind::Paladin,
            PieceKind::Emperor,
            PieceKind::Empress,
            PieceKind::Paladin,
            PieceKind::Priest,
            PieceKind::Dragon,
        ];
        assert(forall|f: int| 0 <= f < 8 ==> back@[f] == back_rank_kind(f));
        let mut file: usize = 0;
        while file < 8
            invariant
                file <= 8,
                board.turn == Color::White,
                forall|f: int| 0 <= f < 8 ==> back@[f] == back_rank_kind(f),
                forall|sq: int|
                    0 <= sq < 64 ==> board.cells()[sq] == (if sq < file { initial_cell(sq) } else {
                        None
                    }),
            decreases 8 - file,
        {
            board.set(file, Some((Color::White, back[file])));
            file += 1;
        }
        let mut file: usize = 0;
        while file < 8
            invariant
                file <= 8,
                board.turn == Color::White,
                forall|sq: int|
                    0 <= sq < 64 ==> board.cells()[sq] == (if sq < 8 + file { initial_cell(sq) } else {
                        None
                    }),
            decreases 8 - file,
        {
            board.set(8 + file, Some((Color::White, PieceKind::Knight)));
            file += 1;
        }
        let mut file: usize = 0;
        while file < 8
            invariant
                file <= 8,
                board.turn == Color::White,
                forall|sq: int|
                    0 <= sq < 64 ==> board.cells()[sq] == (if sq < 16 || (48 <= sq < 48 + file) {
                        initial_cell(sq)
                    } else {
                        None
                    }),
            decreases 8 - file,
        {
            board.set(48 + file, Some((Color::Black, PieceKind::Knight)));
            file += 1;
        }
        let mut file: usize = 0;
        while file < 8
            invariant
                file <= 8,
                board.turn == Color::White,
                forall|f: int| 0 <= f < 8 ==> back@[f] == back_rank_kind(f),
                forall|sq: int|
                    0 <= sq < 64 ==> board.cells()[sq] == (if sq < 16 || (48 <= sq < 56 + file) {
                        initial_cell(sq)
                    } else {
                        None
                    }),
            decreases 8 - file,
        {
            board.set(56 + file, Some((Color::Black, back[file])));
            file += 1;
        }
        assert forall|sq: int| 0 <= sq < 64 implies board.cells()[sq] == initial_cell(sq) by {
            if 16 <= sq < 48 {
                assert(2 <= rank_of(sq) <= 5);
                assert(initial_cell(sq) == None::<(Color, PieceKind)>);
                assert(board.cells()[sq] == None::<(Color, PieceKind)>);
            } else if sq < 16 {
                assert(board.cells()[sq] == initial_cell(sq));
            } else {
                assert(board.cells()[sq] == initial_cell(sq));
            }
        }
        assert(board.cells() =~= initial_cells());
        board.zobrist = compute_zobrist(&board.squares, board.turn);
        board
    }

    /// Make a move, returning a new board. The hash is updated incrementally.
    pub fn make_move(&self, mv: &Move) -> (new: Self)
        requires
            mv.from < 64,
            mv.to < 64,
        ensures
            new.cells() == cells_after_move(self.cells(), mv.from as int, mv.to as int),
            new.turn == self.turn.spec_opposite(),
            new.zobrist == self.zobrist ^ cell_key(self.cells()[mv.from as int], mv.from as int) ^ cell_key(
                self.cells().update(mv.from as int, None)[mv.to as int],
                mv.to as int,
            ) ^ cell_key(self.cells()[mv.from as int], mv.to as int) ^ ZOBRIST_SIDE,
            self.hash_consistent() ==> new.hash_consistent(),
    {
        let mut new = Board { squares: self.squares, turn: self.turn, zobrist: self.zobrist };
        let from = mv.from as usize;
        let to = mv.to as usize;
        let ghost c0 = self.cells();
        let piece = new.squares[from];
        new.squares[from] = None;
        let ghost c1 = new.cells();
        // Remove the moving piece from its square.
        new.zobrist = new.zobrist ^ cell_key_of(piece, from);
        // Remove whatever is captured on the target square.
        let captured = new.squares[to];
        new.zobrist = new.zobrist ^ cell_key_of(captured, to);
        new.squares[to] = piece;
        // Put the moving piece on the target square.
        new.zobrist = new.zobrist ^ cell_key_of(piece, to);
        // Flip the side to move.
        new.zobrist = new.zobrist ^ ZOBRIST_SIDE;
        new.turn = self.turn.opposite();
        proof {
            assert(c1 == c0.update(from as int, None));
            assert(new.cells() == c1.update(to as int, piece));
            assert(new.cells() =~= cells_after_move(c0, from as int, to as int));
            if self.hash_consistent() {
                lemma_move_hash(c0, from as int, to as int, self.turn);
                assert(piece == c0[from as int]);
                assert(captured == c1[to as int]);
                assert(new.zobrist == self.zobrist ^ cell_key(piece, from as int) ^ cell_key(captured, to as int) ^ cell_key(piece, to as int) ^ ZOBRIST_SIDE);
                assert(new.zobrist == position_hash(new.cells(), new.turn));
            }
        }
        new
    }

    /// Pass the turn: only the side to move changes. Used for null-move pruning.
    pub fn null_move(&self) -> (new: Self)
        ensures
            new.cells() == self.cells(),
            new.turn == self.turn.spec_opposite(),
            new.zobrist == self.zobrist ^ ZOBRIST_SIDE,
            self.hash_consistent() ==> new.hash_consistent(),
    {
        let new = Board {
            squares: self.squares,
            turn: self.turn.opposite(),
            zobrist: self.zobrist ^ ZOBRIST_SIDE,
        };
        proof {
            let k = key_fold(self.cells(), 64);
            lemma_xor_zero(k);
            lemma_xor_twice(k, ZOBRIST_SIDE);

        }
        new
    }
}

// ---------------------------------------------------------------------------
// Move generation over the whole board
// ---------------------------------------------------------------------------

/// The pseudo-legal moves of the piece on `sq` (none for an empty square),
/// following the rules of its kind and colour.
pub open spec fn moves_for(cells: Seq<Cell>, sq: int, captures_only: bool) -> Seq<Move> {
    match cells[sq] {
        None => seq![],
        Some((c, k)) => match k {
            PieceKind::Emperor => emperor_moves(cells, sq, c, captures_only),
            PieceKind::Empress => empress_moves(cells, sq, c, captures_only),
            PieceKind::Priest => priest_moves(cells, sq, c, captures_only),
            PieceKind::Paladin => paladin_moves(cells, sq, c, captures_only),
            PieceKind::Dragon => dragon_moves(cells, sq, c, captures_only),
            PieceKind::Knight => knight_moves(cells, sq, c, captures_only),
        },
    }
}

/// Whether a piece of `color` stands on the square.
pub open spec fn owned_by(cell: Cell, color: Color) -> bool {
    cell matches Some((pc, _)) && pc == color
}

/// The moves of all pieces of `color` on the first `n` squares, square by square.
pub open spec fn moves_of_side(cells: Seq<Cell>, color: Color, captures_only: bool, n: nat) -> Seq<Move>
    decreases n,
{
    if n == 0 {
        seq![]
    } else {
        moves_of_side(cells, color, captures_only, (n - 1) as nat) + if owned_by(cells[n - 1], color) {
            moves_for(cells, n - 1, captures_only)
        } else {
            seq![]
        }
    }
}

/// All pseudo-legal moves of `color`.
pub open spec fn pseudo_moves(cells: Seq<Cell>, color: Color) -> Seq<Move> {
    moves_of_side(cells, color, false, 64)
}

/// All pseudo-legal captures of `color`.
pub open spec fn pseudo_captures(cells: Seq<Cell>, color: Color) -> Seq<Move> {
    moves_of_side(cells, color, true, 64)
}

// ---------------------------------------------------------------------------
// Attacks and check
// ---------------------------------------------------------------------------

pub open spec fn max(a: int, b: int) -> int {
    if a >= b {
        a
    } else {
        b
    }
}

/// Number of king steps from `from` to `to` along a line.
pub open spec fn line_dist(from: int, to: int) -> int {
    max(abs(file_of(to) - file_of(from)), abs(rank_of(to) - rank_of(from)))
}

/// The `k`-th square from `from` towards `to`.
pub open spec fn toward(from: int, to: int, k: int) -> int {
    sq_of(
        step(file_of(from), k, file_of(to) - file_of(from)),
        step(rank_of(from), k, rank_of(to) - rank_of(from)),
    )
}

/// Every square strictly between `from` and `to` is empty.
pub open spec fn path_empty(cells: Seq<Cell>, from: int, to: int) -> bool {
    forall|k: int| 1 <= k < line_dist(from, to) ==> (#[trigger] cells[toward(from, to, k)]) is None
}

/// No square strictly between `from` and `to` holds a piece of a colour
/// other than `color`.
pub open spec fn path_passable(cells: Seq<Cell>, from: int, to: int, color: Color) -> bool {
    forall|k: int|
        1 <= k < line_dist(from, to) ==> !owned_by(
            #[trigger] cells[toward(from, to, k)],
            color.spec_opposite(),
        )
}

/// Whether a piece of `kind` and `color` on `from` attacks `to`.
pub open spec fn attacks_square(cells: Seq<Cell>, from: int, kind: PieceKind, color: Color, to: int) -> bool {
    let df = file_of(to) - file_of(from);
    let dr = rank_of(to) - rank_of(from);
    if from == to {
        false
    } else {
        match kind {
            PieceKind::Emperor => abs(df) <= 1 && abs(dr) <= 1,
            PieceKind::Empress => (df == 0 || dr == 0 || abs(df) == abs(dr)) && path_empty(
                cells,
                from,
                to,
            ),
            PieceKind::Priest => (abs(df) == abs(dr) && path_empty(cells, from, to)) || (abs(df)
                == 1 && abs(dr) == 2) || (abs(df) == 2 && abs(dr) == 1),
            PieceKind::Paladin => (abs(df) <= 1 && abs(dr) <= 1) || (((abs(df) == 2 && dr == 0) || (
            df == 0 && abs(dr) == 2)) && !owned_by(
                cells[sq_of(file_of(from) + sign(df), rank_of(from) + sign(dr))],
                color.spec_opposite(),
            )),
            PieceKind::Dragon => (df == 0 || dr == 0) && path_passable(cells, from, to, color),
            PieceKind::Knight => dr == forward(color) && abs(df) == 1,
        }
    }
}

/// The first square holding the Emperor of `color`, searching upwards from `i`.
pub open spec fn king_from(cells: Seq<Cell>, color: Color, i: nat) -> Option<int>
    decreases 64 - i,
{
    if i >= 64 {
        None
    } else if cells[i as int] == Some((color, PieceKind::Emperor)) {
        Some(i as int)
    } else {
        king_from(cells, color, i + 1)
    }
}

/// The square of the Emperor of `color` (the lowest one, should there be several).
pub open spec fn king_square(cells: Seq<Cell>, color: Color) -> Option<int> {
    king_from(cells, color, 0)
}

/// A piece of `by` on `from` attacks `target`.
pub open spec fn attacked_from(cells: Seq<Cell>, from: int, by: Color, target: int) -> bool {
    cells[from] matches Some((pc, kind)) && pc == by && attacks_square(cells, from, kind, pc, target)
}

/// The Emperor of `color` is attacked by an opponent piece.
pub open spec fn in_check(cells: Seq<Cell>, color: Color) -> bool {
    match king_square(cells, color) {
        None => false,
        Some(k) => square_attacked(cells, color.spec_opposite(), k),
    }
}

/// Some piece of `by` attacks `target`.
pub open spec fn square_attacked(cells: Seq<Cell>, by: Color, target: int) -> bool {
    exists|s: int| 0 <= s < 64 && #[trigger] attacked_from(cells, s, by, target)
}

proof fn lemma_in_check_intro(cells: Seq<Cell>, color: Color, k: int, s: int)
    requires
        king_square(cells, color) == Some(k),
        0 <= s < 64,
        attacked_from(cells, s, color.spec_opposite(), k),
    ensures
        in_check(cells, color),
{
    assert(square_attacked(cells, color.spec_opposite(), k));
}

/// A move of `color` that does not leave its own Emperor in check.
pub open spec fn keeps_king_safe(cells: Seq<Cell>, color: Color) -> spec_fn(Move) -> bool {
    |m: Move| !in_check(cells_after_move(cells, m.from as int, m.to as int), color)
}

/// The legal moves of `color`: pseudo-legal moves that keep its Emperor safe.
pub open spec fn legal_moves(cells: Seq<Cell>, color: Color) -> Seq<Move> {
    pseudo_moves(cells, color).filter(keeps_king_safe(cells, color))
}

/// The legal captures of `color`.
pub open spec fn legal_captures(cells: Seq<Cell>, color: Color) -> Seq<Move> {
    pseudo_captures(cells, color).filter(keeps_king_safe(cells, color))
}

/// The state of the game for the side to move.
pub open spec fn result_of(cells: Seq<Cell>, turn: Color) -> GameResult {
    if legal_moves(cells, turn).len() > 0 {
        GameResult::Ongoing
    } else if in_check(cells, turn) {
        GameResult::Checkmate { winner: turn.spec_opposite() }
    } else {
        GameResult::Stalemate
    }
}

impl Board {
    /// The pseudo-legal moves of the piece on `square`.
    pub fn generate_moves_for(&self, square: usize, captures_only: bool) -> (moves: Vec<Move>)
        requires
            square < 64,
        ensures
            moves@ == moves_for(self.cells(), square as int, captures_only),
    {
        match self.squares[square] {
            Some((color, kind)) => match kind {
                PieceKind::Emperor => generate_emperor_moves(self, square, color, captures_only),
                PieceKind::Empress => generate_empress_moves(self, square, color, captures_only),
                PieceKind::Priest => generate_priest_moves(self, square, color, captures_only),
                PieceKind::Paladin => generate_paladin_moves(self, square, color, captures_only),
                PieceKind::Dragon => generate_dragon_moves(self, square, color, captures_only),
                PieceKind::Knight => generate_knight_moves(self, square, color, captures_only),
            },
            None => Vec::new(),
        }
    }

    /// The moves of every piece of `color`, square by square.
    fn generate_side_moves(&self, color: Color, captures_only: bool) -> (moves: Vec<Move>)
        ensures
            moves@ == moves_of_side(self.cells(), color, captures_only, 64),
    {
        let mut moves: Vec<Move> = Vec::new();
        let mut sq: usize = 0;
        while sq < 64
            invariant
                sq <= 64,
                moves@ == moves_of_side(self.cells(), color, captures_only, sq as nat),
            decreases 64 - sq,
        {
            match self.squares[sq] {
                Some((pc, _)) => {
                    if pc == color {
                        let mut more = self.generate_moves_for(sq, captures_only);
                        moves.append(&mut more);
                    } else {
                        proof {
                            assert(moves@ =~= moves@ + Seq::<Move>::empty());
                        }
                    }
                },
                None => {
                    proof {
                        assert(moves@ =~= moves@ + Seq::<Move>::empty());
                    }
                },
            }
            sq += 1;
        }
        moves
    }

    /// All legal moves of `color`.
    pub fn generate_all_moves(&self, color: Color) -> (moves: Vec<Move>)
        ensures
            moves@ == legal_moves(self.cells(), color),
    {
        self.generate_legal_moves(color)
    }

    /// Only the capture moves of `color`.
    pub fn generate_captures(&self, color: Color) -> (moves: Vec<Move>)
        ensures
            moves@ == pseudo_captures(self.cells(), color),
    {
        self.generate_side_moves(color, true)
    }

    /// Count the moves of every piece of `color`.
    fn count_side_moves(&self, color: Color, captures_only: bool) -> (n: u32)
        ensures
            n == moves_of_side(self.cells(), color, captures_only, 64).len(),
    {
        let mut n: u32 = 0;
        let mut sq: usize = 0;
        while sq < 64
            invariant
                sq <= 64,
                n == moves_of_side(self.cells(), color, captures_only, sq as nat).len(),
            decreases 64 - sq,
        {
            proof {
                lemma_moves_of_side(self.cells(), color, captures_only, (sq + 1) as nat);
            }
            match self.squares[sq] {
                Some((pc, _)) => {
                    if pc == color {
                        n = n + self.generate_moves_for(sq, captures_only).len() as u32;
                    }
                },
                None => {},
            }
            sq += 1;
        }
        n
    }

    /// Count the pseudo-legal moves of `color`.
    pub fn count_all_moves(&self, color: Color) -> (n: u32)
        ensures
            n == pseudo_moves(self.cells(), color).len(),
    {
        self.count_side_moves(color, false)
    }

    /// Count the pseudo-legal captures of `color`.
    pub fn count_captures(&self, color: Color) -> (n: u32)
        ensures
            n == pseudo_captures(self.cells(), color).len(),
    {
        self.count_side_moves(color, true)
    }

    // ---- Legal-move filtering (king safety) ----

    pub(crate) fn find_king(&self, color: Color) -> (k: Option<usize>)
        ensures
            k matches Some(sq) ==> sq < 64 && king_square(self.cells(), color) == Some(sq as int),
            k is None ==> king_square(self.cells(), color) is None,
    {
        let mut sq: usize = 0;
        while sq < 64
            invariant
                sq <= 64,
                king_square(self.cells(), color) == king_from(self.cells(), color, sq as nat),
            decreases 64 - sq,
        {
            match self.squares[sq] {
                Some((pc, PieceKind::Emperor)) => {
                    if pc == color {
                        return Some(sq);
                    }
                },
                _ => {},
            }
            sq += 1;
        }
        None
    }

    /// Whether every square strictly between `from` and `to` is empty, for
    /// squares on a common diagonal (or, unless `diagonal_only`, a common
    /// rank or file).
    fn sliding_attack(&self, from: usize, to: usize, diagonal_only: bool) -> (r: bool)
        requires
            from < 64,
            to < 64,
        ensures
            ({
                let df = file_of(to as int) - file_of(from as int);
                let dr = rank_of(to as int) - rank_of(from as int);
                let aligned = if diagonal_only {
                    abs(df) == abs(dr)
                } else {
                    df == 0 || dr == 0 || abs(df) == abs(dr)
                };
                r == (aligned && from != to && path_empty(self.cells(), from as int, to as int))
            }),
    {
        let (ff, fr) = index_to_coord(from);
        let (tf, tr) = index_to_coord(to);
        let df: i8 = tf - ff;
        let dr: i8 = tr - fr;
        let adf: i8 = if df < 0 { -df } else { df };
        let adr: i8 = if dr < 0 { -dr } else { dr };
        let aligned = if diagonal_only {
            adf == adr
        } else {
            df == 0 || dr == 0 || adf == adr
        };
        if !aligned {
            return false;
        }
        if df == 0 && dr == 0 {
            return false;
        }
        let sf: i8 = if df > 0 { 1 } else if df < 0 { -1 } else { 0 };
        let sr: i8 = if dr > 0 { 1 } else if dr < 0 { -1 } else { 0 };
        let ghost dist = line_dist(from as int, to as int);
        let mut k: i8 = 1;
        let mut cf: i8 = ff + sf;
        let mut cr: i8 = fr + sr;
        while cf != tf || cr != tr
            invariant
                from < 64,
                to < 64,
                ff == file_of(from as int),
                fr == rank_of(from as int),
                tf == file_of(to as int),
                tr == rank_of(to as int),
                df == tf - ff,
                dr == tr - fr,
                df == 0 || dr == 0 || abs(df as int) == abs(dr as int),
                !(df == 0 && dr == 0),
                sf == sign(df as int),
                sr == sign(dr as int),
                dist == line_dist(from as int, to as int),
                1 <= k <= dist,
                cf == step(ff as int, k as int, df as int),
                cr == step(fr as int, k as int, dr as int),
                (cf == tf && cr == tr) <==> k == dist,
                forall|j: int| 1 <= j < k ==> (#[trigger] self.cells()[toward(from as int, to as int, j)]) is None,
            decreases dist - k,
        {
            let idx: usize = (cr * 8 + cf) as usize;
            proof {
                assert(idx == toward(from as int, to as int, k as int));
            }
            if self.squares[idx].is_some() {
                // blocked
                return false;
            }
            k = k + 1;
            cf = cf + sf;
            cr = cr + sr;
        }
        true
    }

    /// Whether no square strictly between `from` and `to` on a common rank or
    /// file holds a piece of a colour other than `color`.
    fn dragon_path(&self, from: usize, to: usize, color: Color) -> (r: bool)
        requires
            from < 64,
            to < 64,
            from != to,
            file_of(to as int) == file_of(from as int) || rank_of(to as int) == rank_of(from as int),
        ensures
            r == path_passable(self.cells(), from as int, to as int, color),
    {
        let (ff, fr) = index_to_coord(from);
        let (tf, tr) = index_to_coord(to);
        let df: i8 = tf - ff;
        let dr: i8 = tr - fr;
        let sf: i8 = if df > 0 { 1 } else if df < 0 { -1 } else { 0 };
        let sr: i8 = if dr > 0 { 1 } else if dr < 0 { -1 } else { 0 };
        let ghost dist = line_dist(from as int, to as int);
        let mut k: i8 = 1;
        let mut cf: i8 = ff + sf;
        let mut cr: i8 = fr + sr;
        while cf != tf || cr != tr
            invariant
                from < 64,
                to < 64,
                ff == file_of(from as int),
                fr == rank_of(from as int),
                tf == file_of(to as int),
                tr == rank_of(to as int),
                df == tf - ff,
                dr == tr - fr,
                df == 0 || dr == 0,
                !(df == 0 && dr == 0),
                sf == sign(df as int),
                sr == sign(dr as int),
                dist == line_dist(from as int, to as int),
                1 <= k <= dist,
                cf == step(ff as int, k as int, df as int),
                cr == step(fr as int, k as int, dr as int),
                (cf == tf && cr == tr) <==> k == dist,
                forall|j: int|
                    1 <= j < k ==> !owned_by(
                        #[trigger] self.cells()[toward(from as int, to as int, j)],
                        color.spec_opposite(),
                    ),
            decreases dist - k,
        {
            let idx: usize = (cr * 8 + cf) as usize;
            proof {
                assert(idx == toward(from as int, to as int, k as int));
            }
            match self.squares[idx] {
                Some((pc, _)) => {
                    if pc != color {
                        return false;
                    }
                },
                None => {},
            }
            k = k + 1;
            cf = cf + sf;
            cr = cr + sr;
        }
        true
    }

    /// Does a piece of `kind` and `color` at `from` attack `to`? When that
    /// piece stands on `from` and a piece of the other colour on `to`, the
    /// answer agrees with move generation: some generated move of the piece
    /// is a capture on `to`.
    fn attacks(&self, from: usize, kind: PieceKind, color: Color, to: usize) -> (r: bool)
        requires
            from < 64,
            to < 64,
        ensures
            r == attacks_square(self.cells(), from as int, kind, color, to as int),
            self.cells()[from as int] == Some((color, kind)) && (self.cells()[to as int] matches Some((pc, _))
                && pc == color.spec_opposite()) ==> (r <==> exists|i: int|
                0 <= i < moves_for(self.cells(), from as int, false).len() && (#[trigger] moves_for(
                    self.cells(),
                    from as int,
                    false,
                )[i]).to == to && moves_for(self.cells(), from as int, false)[i].capture),
    {
        let r = self.attack_test(from, kind, color, to);
        proof {
            let cells = self.cells();
            if cells[from as int] == Some((color, kind)) && (cells[to as int] matches Some((pc, _))
                && pc == color.spec_opposite()) {
                crate::attack_laws::law_attacks_agree_with_moves(cells, from as int, kind, color, to as int);
            }
        }
        r
    }

    /// The attack test itself, by the rules of each kind of piece.
    fn attack_test(&self, from: usize, kind: PieceKind, color: Color, to: usize) -> (r: bool)
        requires
            from < 64,
            to < 64,
        ensures
            r == attacks_square(self.cells(), from as int, kind, color, to as int),
    {
        if from == to {
            return false;
        }
        let (ff, fr) = index_to_coord(from);
        let (tf, tr) = index_to_coord(to);
        let df: i8 = tf - ff;
        let dr: i8 = tr - fr;
        let adf: i8 = if df < 0 { -df } else { df };
        let adr: i8 = if dr < 0 { -dr } else { dr };
        match kind {
            PieceKind::Emperor => adf <= 1 && adr <= 1,
            PieceKind::Empress => self.sliding_attack(from, to, false),
            PieceKind::Priest => {
                if self.sliding_attack(from, to, true) {
                    return true;
                }
                (adf == 1 && adr == 2) || (adf == 2 && adr == 1)
            },
            PieceKind::Paladin => {
                if adf <= 1 && adr <= 1 {
                    return true;
                }
                if (adf == 2 && dr == 0) || (df == 0 && adr == 2) {
                    let mf: i8 = ff + if df > 0 { 1 } else if df < 0 { -1 } else { 0 };
                    let mr: i8 = fr + if dr > 0 { 1 } else if dr < 0 { -1 } else { 0 };
                    match coord_to_index(mf, mr) {
                        Some(idx) => match self.squares[idx] {
                            None => true,
                            Some((pc, _)) => pc == color,
                        },
                        None => false,
                    }
                } else {
                    false
                }
            },
            PieceKind::Dragon => {
                if df != 0 && dr != 0 {
                    return false;
                }
                self.dragon_path(from, to, color)
            },
            PieceKind::Knight => {
                let fwd: i8 = if color == Color::White { 1 } else { -1 };
                dr == fwd && adf == 1
            },
        }
    }

    /// Returns `true` if `color`'s emperor is attacked by any opponent piece.
    pub fn is_in_check(&self, color: Color) -> (r: bool)
        ensures
            r == in_check(self.cells(), color),
    {
        let king_sq = match self.find_king(color) {
            Some(sq) => sq,
            None => return false,
        };
        let opp = color.opposite();
        let mut sq: usize = 0;
        while sq < 64
            invariant
                sq <= 64,
                king_sq < 64,
                king_square(self.cells(), color) == Some(king_sq as int),
                opp == color.spec_opposite(),
                forall|s: int| 0 <= s < sq ==> !#[trigger] attacked_from(self.cells(), s, opp, king_sq as int),
            decreases 64 - sq,
        {
            match self.squares[sq] {
                Some((pc, kind)) => {
                    if pc == opp && self.attacks(sq, kind, pc, king_sq) {
                        proof {
                            assert(attacked_from(self.cells(), sq as int, color.spec_opposite(), king_sq as int));
                            lemma_in_check_intro(self.cells(), color, king_sq as int, sq as int);
                        }
                        return true;
                    }
                },
                None => {},
            }
            sq += 1;
        }
        false
    }

    /// Keep the moves that do not leave `color`'s Emperor in check.
    fn keep_king_safe(&self, pseudo: Vec<Move>, color: Color) -> (legal: Vec<Move>)
        requires
            forall|i: int| 0 <= i < pseudo@.len() ==> (#[trigger] pseudo@[i]).from < 64 && pseudo@[i].to < 64,
        ensures
            legal@ == pseudo@.filter(keeps_king_safe(self.cells(), color)),
    {
        let ghost pred = keeps_king_safe(self.cells(), color);
        let mut legal: Vec<Move> = Vec::new();
        let n = pseudo.len();
        let mut i: usize = 0;
        proof {
            assert(pseudo@.take(0) =~= Seq::<Move>::empty());
            reveal(Seq::filter);
        }
        while i < n
            invariant
                n == pseudo@.len(),
                0 <= i <= n,
                pred == keeps_king_safe(self.cells(), color),
                forall|j: int| 0 <= j < pseudo@.len() ==> (#[trigger] pseudo@[j]).from < 64 && pseudo@[j].to < 64,
                legal@ == pseudo@.take(i as int).filter(pred),
            decreases n - i,
        {
            let mv = pseudo[i];
            proof {
                assert(pseudo@.take(i + 1).drop_last() =~= pseudo@.take(i as int));
                assert(pseudo@.take(i + 1).last() == mv);
                reveal(Seq::filter);
            }
            let child = self.make_move(&mv);
            if !child.is_in_check(color) {
                legal.push(mv);
            }
            i += 1;
        }
        proof {
            assert(pseudo@.take(n as int) =~= pseudo@);
        }
        legal
    }

    /// Pseudo-legal moves that do **not** leave the moving side's own emperor in check.
    pub fn generate_legal_moves(&self, color: Color) -> (moves: Vec<Move>)
        ensures
            moves@ == legal_moves(self.cells(), color),
    {
        let pseudo = self.generate_side_moves(color, false);
        proof {
            lemma_moves_of_side(self.cells(), color, false, 64);
            assert forall|i: int| 0 <= i < pseudo@.len() implies (#[trigger] pseudo@[i]).from < 64
                && pseudo@[i].to < 64 by {
                assert(side_move(self.cells(), color, pseudo@[i]));
            }
        }
        self.keep_king_safe(pseudo, color)
    }

    /// Legal capture-only moves (for quiescence search).
    pub fn generate_legal_captures(&self, color: Color) -> (moves: Vec<Move>)
        ensures
            moves@ == legal_captures(self.cells(), color),
    {
        let pseudo = self.generate_captures(color);
        proof {
            lemma_moves_of_side(self.cells(), color, true, 64);
            assert forall|i: int| 0 <= i < pseudo@.len() implies (#[trigger] pseudo@[i]).from < 64
                && pseudo@[i].to < 64 by {
                assert(side_move(self.cells(), color, pseudo@[i]));
            }
        }
        self.keep_king_safe(pseudo, color)
    }

    /// Determine the game state from the current player's perspective.
    pub fn game_result(&self) -> (r: GameResult)
        ensures
            r == result_of(self.cells(), self.turn),
    {
        let turn = self.turn;
        let has_legal = self.generate_legal_moves(turn).len() > 0;
        if has_legal {
            return GameResult::Ongoing;
        }
        if self.is_in_check(turn) {
            GameResult::Checkmate { winner: turn.opposite() }
        } else {
            GameResult::Stalemate
        }
    }
}

} // verus!
