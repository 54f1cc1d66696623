//! Colours, piece kinds, moves and game results.

use vstd::prelude::*;

verus! {

/// The two sides.
#[derive(Debug, Clone, Copy, PartialEq, Eq, Structural)]
pub enum Color {
    White,
    Black,
}

impl Color {
    /// The other side.
    pub open spec fn spec_opposite(self) -> Color {
        match self {
            Color::White => Color::Black,
            Color::Black => Color::White,
        }
    }

    /// `+1` for White, `-1` for Black.
    pub open spec fn spec_multiplier(self) -> int {
        match self {
            Color::White => 1,
            Color::Black => -1,
        }
    }

    pub fn opposite(self) -> (c: Color)
        ensures
            c == self.spec_opposite(),
    {
        match self {
            Color::White => Color::Black,
            Color::Black => Color::White,
        }
    }

    pub fn multiplier(self) -> (m: i32)
        ensures
            m == self.spec_multiplier(),
    {
        match self {
            Color::White => 1,
            Color::Black => -1,
        }
    }
}

/// The six kinds of pieces.
#[derive(Debug, Clone, Copy, PartialEq, Eq, Structural)]
pub enum PieceKind {
    Emperor,
    Empress,
    Priest,
    Paladin,
    Dragon,
    Knight,
}

impl PieceKind {
    /// Nominal material value.
    pub open spec fn spec_value(self) -> int {
        match self {
            PieceKind::Emperor => 10_000,
            PieceKind::Empress => 900,
            PieceKind::Priest => 650,
            PieceKind::Paladin => 600,
            PieceKind::Dragon => 500,
            PieceKind::Knight => 100,
        }
    }

    /// Position of the kind in per-kind tables.
    pub open spec fn spec_index(self) -> int {
        match self {
            PieceKind::Emperor => 0,
            PieceKind::Empress => 1,
            PieceKind::Priest => 2,
            PieceKind::Paladin => 3,
            PieceKind::Dragon => 4,
            PieceKind::Knight => 5,
        }
    }

    pub fn value(self) -> (v: i32)
        ensures
            v == self.spec_value(),
    {
        match self {
            PieceKind::Emperor => 10_000,
            PieceKind::Empress => 900,
            PieceKind::Priest => 650,
            PieceKind::Paladin => 600,
            PieceKind::Dragon => 500,
            PieceKind::Knight => 100,
        }
    }

    pub fn index(self) -> (i: usize)
        ensures
            i == self.spec_index(),
            i < 6,
    {
        match self {
            PieceKind::Emperor => 0,
            PieceKind::Empress => 1,
            PieceKind::Priest => 2,
            PieceKind::Paladin => 3,
            PieceKind::Dragon => 4,
            PieceKind::Knight => 5,
        }
    }
}

/// A move from one square to another; `capture` records whether an enemy
/// piece stands on the target square.
#[derive(Debug, Clone, Copy, PartialEq, Eq, Structural)]
pub struct Move {
    pub from: u8,
    pub to: u8,
    pub capture: bool,
}

/// The result of a game at any given board state.
#[derive(Debug, Clone, Copy, PartialEq, Eq, Structural)]
pub enum GameResult {
    /// The game is still in progress.
    Ongoing,
    /// The side to move has no legal moves and is in check.
    Checkmate { winner: Color },
    /// The side to move has no legal moves and is not in check.
    Stalemate,
}

impl Move {
    /// The placeholder move from square 0 to square 0.
    pub fn null() -> (m: Self)
        ensures
            m == (Move { from: 0, to: 0, capture: false }),
    {
        Move { from: 0, to: 0, capture: false }
    }

    pub fn new(from: u8, to: u8, capture: bool) -> (m: Self)
        ensures
            m == (Move { from, to, capture }),
    {
        Move { from, to, capture }
    }
}

} // verus!
