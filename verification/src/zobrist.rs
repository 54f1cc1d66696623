//! Zobrist keys: a fixed pseudo-random 64-bit key for every (kind, colour,
//! square) triple, drawn from a SplitMix64 sequence, and the position hash
//! that XORs together the keys of all occupied squares.

use vstd::prelude::*;
use vstd::wrapping::u64_specs;
use crate::types::{Color, PieceKind};

verus! {

/// Key XORed into the hash when Black is to move.
pub const ZOBRIST_SIDE: u64 = 0x9D39247E_33776D41;

/// Initial state of the SplitMix64 generator.
pub const ZOBRIST_SEED: u64 = 0xCAFEBABE_DEADBEEF;

/// Increment of the SplitMix64 generator.
pub const ZOBRIST_GAMMA: u64 = 0x9E3779B97F4A7C15;

pub const MIX_A: u64 = 0xBF58476D1CE4E5B9;

pub const MIX_B: u64 = 0x94D049BB133111EB;

/// The SplitMix64 output function applied to a generator state.
pub open spec fn splitmix_output(state: u64) -> u64 {
    let z1 = u64_specs::wrapping_mul(state ^ (state >> 30u64), MIX_A);
    let z2 = u64_specs::wrapping_mul(z1 ^ (z1 >> 27u64), MIX_B);
    z2 ^ (z2 >> 31u64)
}

/// The generator state after `k` steps from the seed.
pub open spec fn splitmix_state(k: u64) -> u64 {
    u64_specs::wrapping_add(ZOBRIST_SEED, u64_specs::wrapping_mul(ZOBRIST_GAMMA, k))
}

/// 0 for White, 1 for Black.
pub open spec fn spec_color_index(c: Color) -> int {
    match c {
        Color::White => 0,
        Color::Black => 1,
    }
}

/// Position of the (kind, colour, square) triple in generation order: kinds
/// outermost, then colours, then squares.
pub open spec fn key_slot(color: Color, kind: PieceKind, sq: int) -> int {
    kind.spec_index() * 128 + spec_color_index(color) * 64 + sq
}

/// The key of a piece of `kind` and `color` on square `sq`: the output of the
/// generator after `slot + 1` steps.
pub open spec fn piece_square_key(color: Color, kind: PieceKind, sq: int) -> u64 {
    splitmix_output(splitmix_state((key_slot(color, kind, sq) + 1) as u64))
}

/// The contribution of a square's contents to the hash (0 when empty).
pub open spec fn cell_key(cell: Option<(Color, PieceKind)>, sq: int) -> u64 {
    match cell {
        None => 0u64,
        Some((c, k)) => piece_square_key(c, k, sq),
    }
}

/// XOR of the keys of the first `n` squares.
pub open spec fn key_fold(cells: Seq<Option<(Color, PieceKind)>>, n: nat) -> u64
    decreases n,
{
    if n == 0 {
        0u64
    } else {
        key_fold(cells, (n - 1) as nat) ^ cell_key(cells[n - 1], n - 1)
    }
}

/// The hash of a position: all occupied squares, plus the side key when Black
/// is to move.
pub open spec fn position_hash(cells: Seq<Option<(Color, PieceKind)>>, turn: Color) -> u64 {
    key_fold(cells, 64) ^ (if turn == Color::Black { ZOBRIST_SIDE } else { 0u64 })
}

pub fn color_index(color: Color) -> (i: usize)
    ensures
        i == spec_color_index(color),
{
    match color {
        Color::White => 0,
        Color::Black => 1,
    }
}

/// The key of a piece of `kind` and `color` on square `sq`.
pub fn zobrist_piece_square(color: Color, kind: PieceKind, sq: usize) -> (key: u64)
    requires
        sq < 64,
    ensures
        key == piece_square_key(color, kind, sq as int),
{
    let slot: u64 = (kind.index() as u64) * 128 + (color_index(color) as u64) * 64 + (sq as u64);
    let state: u64 = ZOBRIST_SEED.wrapping_add(ZOBRIST_GAMMA.wrapping_mul(slot + 1));
    let z1: u64 = (state ^ (state >> 30u64)).wrapping_mul(MIX_A);
    let z2: u64 = (z1 ^ (z1 >> 27u64)).wrapping_mul(MIX_B);
    z2 ^ (z2 >> 31u64)
}

pub proof fn lemma_xor_zero(a: u64)
    ensures
        a ^ 0u64 == a,
{
    assert(a ^ 0u64 == a) by (bit_vector);
}

pub proof fn lemma_xor_twice(a: u64, b: u64)
    ensures
        (a ^ b) ^ b == a,
{
    assert((a ^ b) ^ b == a) by (bit_vector);
}

proof fn lemma_xor_swap(a: u64, b: u64, c: u64, d: u64)
    ensures
        (a ^ b) ^ c ^ d == (a ^ c ^ d) ^ b,
{
    assert((a ^ b) ^ c ^ d == (a ^ c ^ d) ^ b) by (bit_vector);
}

/// Changing one square changes the fold by the XOR of its old and new keys.
pub proof fn lemma_key_fold_update(
    cells: Seq<Option<(Color, PieceKind)>>,
    i: int,
    p: Option<(Color, PieceKind)>,
    n: nat,
)
    requires
        0 <= i < n,
        n <= cells.len(),
    ensures
        key_fold(cells.update(i, p), n) == key_fold(cells, n) ^ cell_key(cells[i], i) ^ cell_key(
            p,
            i,
        ),
    decreases n,
{
    let upd = cells.update(i, p);
    if i == n - 1 {
        lemma_key_fold_same(cells, upd, (n - 1) as nat);
        let a = key_fold(cells, (n - 1) as nat);
        let b = cell_key(cells[i], i);
        let c = cell_key(p, i);
        assert((a ^ c) == (a ^ b) ^ b ^ c) by (bit_vector);
    } else {
        lemma_key_fold_update(cells, i, p, (n - 1) as nat);
        lemma_xor_swap(
            key_fold(cells, (n - 1) as nat),
            cell_key(cells[n - 1], n - 1),
            cell_key(cells[i], i),
            cell_key(p, i),
        );
    }
}

/// The fold only depends on the squares it covers.
pub proof fn lemma_key_fold_same(
    a: Seq<Option<(Color, PieceKind)>>,
    b: Seq<Option<(Color, PieceKind)>>,
    n: nat,
)
    requires
        n <= a.len(),
        n <= b.len(),
        forall|j: int| 0 <= j < n ==> a[j] == b[j],
    ensures
        key_fold(a, n) == key_fold(b, n),
    decreases n,
{
    if n > 0 {
        lemma_key_fold_same(a, b, (n - 1) as nat);
    }
}

/// Compute the full zobrist hash of a position from scratch.
pub fn compute_zobrist(squares: &[Option<(Color, PieceKind)>; 64], turn: Color) -> (key: u64)
    ensures
        key == position_hash(squares@, turn),
{
    let mut key: u64 = 0;
    let mut sq: usize = 0;
    while sq < 64
        invariant
            sq <= 64,
            key == key_fold(squares@, sq as nat),
        decreases 64 - sq,
    {
        match squares[sq] {
            Some((color, kind)) => {
                key = key ^ zobrist_piece_square(color, kind, sq);
            },
            None => {
                proof {
                    lemma_xor_zero(key);
                }
            },
        }
        sq += 1;
    }
    if turn == Color::Black {
        key = key ^ ZOBRIST_SIDE;
    } else {
        proof {
            lemma_xor_zero(key);
        }
    }
    key
}

} // verus!
