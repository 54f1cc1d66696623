//! Colour-mirror laws of the evaluation: swapping the colours of all pieces
//! and mirroring the ranks negates the material-and-table scores, gives the
//! other colour the same Knight-structure, development, centre-control,
//! king-safety and mobility terms, keeps the phase material, and so negates
//! the middle-game and end-game scores, which are from White's side.

use vstd::prelude::*;
use crate::board::{file_of, king_from, king_square, moves_for, moves_of_side, on_board, owned_by, pseudo_moves, rank_of, sq_of, Cell};
use crate::evaluation::{
    centre_sum, development_sum, end_game_score, phase_sum, phase_weight, half_toward_zero, home_rank, king_safety_penalty, middle_game_score, mobility_bonus, knight_bonus, knight_home_rank,
    knight_structure_sum, material_eg, material_mg, mirror, own_knight, shield, shield_at, square_eg,
    square_mg, table_square,
};
use crate::pieces::{dragon_dirs, hop_moves, forward, knight_capture, knight_moves, knight_quiet_moves, paladin_jump_moves, paladin_jumps, start_rank, ADJACENT, DIAGONALS, KNIGHT_JUMPS, ORTHOGONALS, PALADIN_JUMPS};
use crate::rays::{is_direction, lemma_ray_facts, leap_moves, leaper_moves, leg_blocked, ray, ray_len, slide_moves};
use crate::movegen::{direction_moves, sliding_moves};
use crate::board::step;
use crate::board::sign;
use crate::types::{Color, PieceKind};

verus! {

/// The cell with its piece's colour swapped.
pub open spec fn swap_colour(cell: Cell) -> Cell {
    match cell {
        None => None,
        Some((c, k)) => Some((c.spec_opposite(), k)),
    }
}

/// `m` is `b` with the colours of all pieces swapped and the ranks mirrored.
pub open spec fn colour_mirror(b: Seq<Cell>, m: Seq<Cell>) -> bool {
    forall|sq: int| 0 <= sq < 64 ==> m[#[trigger] mirror(sq)] == swap_colour(b[sq])
}

/// `f(0) + ... + f(n - 1)`.
pub open spec fn sum_to(f: spec_fn(int) -> int, n: nat) -> int
    decreases n,
{
    if n == 0 {
        0
    } else {
        sum_to(f, (n - 1) as nat) + f(n - 1)
    }
}

proof fn lemma_sum_ext(f: spec_fn(int) -> int, g: spec_fn(int) -> int, n: nat)
    requires
        forall|i: int| 0 <= i < n ==> #[trigger] f(i) == g(i),
    ensures
        sum_to(f, n) == sum_to(g, n),
    decreases n,
{
    if n > 0 {
        lemma_sum_ext(f, g, (n - 1) as nat);
    }
}

proof fn lemma_sum_neg(f: spec_fn(int) -> int, g: spec_fn(int) -> int, n: nat)
    requires
        forall|i: int| 0 <= i < n ==> #[trigger] f(i) == -g(i),
    ensures
        sum_to(f, n) == -sum_to(g, n),
    decreases n,
{
    if n > 0 {
        lemma_sum_neg(f, g, (n - 1) as nat);
    }
}

/// The sum of `f` over rank `r`.
pub open spec fn rank_sum(f: spec_fn(int) -> int, r: int) -> int {
    sum_to(|j: int| f(8 * r + j), 8)
}

proof fn lemma_sum_block(f: spec_fn(int) -> int, r: nat)
    ensures
        sum_to(f, 8 * r + 8) == sum_to(f, 8 * r) + rank_sum(f, r as int),
{
    reveal_with_fuel(sum_to, 9);
}

proof fn lemma_sum_by_ranks(f: spec_fn(int) -> int, k: nat)
    ensures
        sum_to(f, 8 * k) == sum_to(|r: int| rank_sum(f, r), k),
    decreases k,
{
    if k > 0 {
        lemma_sum_by_ranks(f, (k - 1) as nat);
        lemma_sum_block(f, (k - 1) as nat);
        assert(8 * ((k - 1) as nat) + 8 == 8 * k);
    }
}

/// Summing over the mirrored squares gives the same total.
proof fn lemma_sum_mirror(f: spec_fn(int) -> int)
    ensures
        sum_to(f, 64) == sum_to(|sq: int| f(mirror(sq)), 64),
{
    let g = |sq: int| f(mirror(sq));
    lemma_sum_by_ranks(f, 8);
    lemma_sum_by_ranks(g, 8);
    assert forall|r: int| 0 <= r < 8 implies rank_sum(g, r) == rank_sum(f, 7 - r) by {
        let gr = |j: int| g(8 * r + j);
        let fr = |j: int| f(8 * (7 - r) + j);
        assert forall|j: int| 0 <= j < 8 implies #[trigger] gr(j) == fr(j) by {
            assert(file_of(8 * r + j) == j && rank_of(8 * r + j) == r) by (nonlinear_arith)
                requires
                    0 <= r < 8,
                    0 <= j < 8,
            ;
        }
        lemma_sum_ext(gr, fr, 8);
    }
    let hf = |r: int| rank_sum(f, r);
    let hg = |r: int| rank_sum(g, r);
    reveal_with_fuel(sum_to, 9);
    assert(hg(0) == hf(7) && hg(1) == hf(6) && hg(2) == hf(5) && hg(3) == hf(4));
    assert(hg(4) == hf(3) && hg(5) == hf(2) && hg(6) == hf(1) && hg(7) == hf(0));
}

proof fn lemma_mirror_coords(sq: int)
    requires
        0 <= sq < 64,
    ensures
        0 <= mirror(sq) < 64,
        file_of(mirror(sq)) == file_of(sq),
        rank_of(mirror(sq)) == 7 - rank_of(sq),
        mirror(mirror(sq)) == sq,
{
}

proof fn lemma_swap_knight(x: Cell, c: Color)
    ensures
        (swap_colour(x) == Some((c.spec_opposite(), PieceKind::Knight))) == (x == Some((c, PieceKind::Knight))),
{
}

proof fn lemma_knight_bonus_mirror(b: Seq<Cell>, m: Seq<Cell>, c: Color, sq: int)
    requires
        colour_mirror(b, m),
        0 <= sq < 64,
    ensures
        knight_bonus(m, c.spec_opposite(), mirror(sq)) == knight_bonus(b, c, sq),
{
    lemma_mirror_coords(sq);
    let ms = mirror(sq);
    assert(m[mirror(sq)] == swap_colour(b[sq]));
    lemma_swap_knight(b[sq], c);
    if file_of(sq) > 0 {
        lemma_mirror_coords(sq - 1);
        assert(mirror(sq - 1) == ms - 1);
        assert(m[mirror(sq - 1)] == swap_colour(b[sq - 1]));
        lemma_swap_knight(b[sq - 1], c);
    }
    if file_of(sq) < 7 {
        lemma_mirror_coords(sq + 1);
        assert(mirror(sq + 1) == ms + 1);
        assert(m[mirror(sq + 1)] == swap_colour(b[sq + 1]));
        lemma_swap_knight(b[sq + 1], c);
    }
}

proof fn lemma_knight_sum(cells: Seq<Cell>, c: Color, n: nat)
    ensures
        knight_structure_sum(cells, c, n) == sum_to(|sq: int| knight_bonus(cells, c, sq), n),
    decreases n,
{
    if n > 0 {
        lemma_knight_sum(cells, c, (n - 1) as nat);
    }
}

/// Swapping the colours and mirroring the ranks gives the other colour the
/// same Knight-structure bonus: connected Knights and Knights advanced
/// towards the enemy count alike for both colours.
pub proof fn law_knight_structure_mirror(b: Seq<Cell>, m: Seq<Cell>, c: Color)
    requires
        colour_mirror(b, m),
    ensures
        knight_structure_sum(m, c.spec_opposite(), 64) == knight_structure_sum(b, c, 64),
{
    let fm = |sq: int| knight_bonus(m, c.spec_opposite(), sq);
    let fb = |sq: int| knight_bonus(b, c, sq);
    lemma_knight_sum(m, c.spec_opposite(), 64);
    lemma_knight_sum(b, c, 64);
    lemma_sum_mirror(fm);
    let gm = |sq: int| fm(mirror(sq));
    assert forall|i: int| 0 <= i < 64 implies #[trigger] gm(i) == fb(i) by {
        lemma_knight_bonus_mirror(b, m, c, i);
    }
    lemma_sum_ext(gm, fb, 64);
}

proof fn lemma_square_scores_mirror(cell: Cell, sq: int)
    requires
        0 <= sq < 64,
    ensures
        square_mg(swap_colour(cell), mirror(sq)) == -square_mg(cell, sq),
        square_eg(swap_colour(cell), mirror(sq)) == -square_eg(cell, sq),
{
    lemma_mirror_coords(sq);
    if let Some((c, k)) = cell {
        assert(table_square(c.spec_opposite(), mirror(sq)) == table_square(c, sq));
    }
}

proof fn lemma_material_sums(cells: Seq<Cell>, n: nat)
    ensures
        material_mg(cells, n) == sum_to(|sq: int| square_mg(cells[sq], sq), n),
        material_eg(cells, n) == sum_to(|sq: int| square_eg(cells[sq], sq), n),
    decreases n,
{
    if n > 0 {
        lemma_material_sums(cells, (n - 1) as nat);
    }
}

/// Swapping the colours and mirroring the ranks negates the material and
/// piece-square scores of both game phases.
pub proof fn law_material_mirror(b: Seq<Cell>, m: Seq<Cell>)
    requires
        colour_mirror(b, m),
    ensures
        material_mg(m, 64) == -material_mg(b, 64),
        material_eg(m, 64) == -material_eg(b, 64),
{
    lemma_material_sums(m, 64);
    lemma_material_sums(b, 64);
    let mg_m = |sq: int| square_mg(m[sq], sq);
    let eg_m = |sq: int| square_eg(m[sq], sq);
    let mg_b = |sq: int| square_mg(b[sq], sq);
    let eg_b = |sq: int| square_eg(b[sq], sq);
    lemma_sum_mirror(mg_m);
    lemma_sum_mirror(eg_m);
    let mg_r = |sq: int| mg_m(mirror(sq));
    let eg_r = |sq: int| eg_m(mirror(sq));
    assert forall|i: int| 0 <= i < 64 implies #[trigger] mg_r(i) == -mg_b(i) && eg_r(i) == -eg_b(i) by {
        assert(m[mirror(i)] == swap_colour(b[i]));
        lemma_square_scores_mirror(b[i], i);
    }
    lemma_sum_neg(mg_r, mg_b, 64);
    lemma_sum_neg(eg_r, eg_b, 64);
}

/// Swapping the colours and mirroring the ranks gives the other colour the
/// same development penalty over the first `n` files.
pub proof fn law_development_mirror(b: Seq<Cell>, m: Seq<Cell>, c: Color, n: nat)
    requires
        colour_mirror(b, m),
        n <= 8,
    ensures
        development_sum(m, c.spec_opposite(), n) == development_sum(b, c, n),
    decreases n,
{
    if n > 0 {
        law_development_mirror(b, m, c, (n - 1) as nat);
        let f = n - 1;
        let back = sq_of(f, home_rank(c));
        let kn = sq_of(f, knight_home_rank(c));
        lemma_mirror_coords(back);
        lemma_mirror_coords(kn);
        assert(mirror(back) == sq_of(f, home_rank(c.spec_opposite())));
        assert(mirror(kn) == sq_of(f, knight_home_rank(c.spec_opposite())));
        assert(m[mirror(back)] == swap_colour(b[back]));
        assert(m[mirror(kn)] == swap_colour(b[kn]));
        lemma_swap_knight(b[kn], c);
    }
}

/// Swapping the colours and mirroring the ranks gives the other colour the
/// same centre-control bonus.
pub proof fn law_centre_mirror(b: Seq<Cell>, m: Seq<Cell>, c: Color)
    requires
        colour_mirror(b, m),
    ensures
        centre_sum(m, c.spec_opposite()) == centre_sum(b, c),
{
    assert(mirror(27) == 35 && mirror(28) == 36 && mirror(35) == 27 && mirror(36) == 28);
    assert(m[mirror(27)] == swap_colour(b[27]));
    assert(m[mirror(28)] == swap_colour(b[28]));
    assert(m[mirror(35)] == swap_colour(b[35]));
    assert(m[mirror(36)] == swap_colour(b[36]));
}

/// `color` has at most one Emperor on the board.
pub open spec fn one_emperor(cells: Seq<Cell>, color: Color) -> bool {
    forall|a: int, b: int|
        0 <= a < 64 && 0 <= b < 64 && cells[a] == Some((color, PieceKind::Emperor)) && cells[b] == Some(
            (color, PieceKind::Emperor),
        ) ==> a == b
}

proof fn lemma_king_from_none(cells: Seq<Cell>, color: Color, i: nat)
    requires
        forall|s: int| i <= s < 64 ==> cells[s] != Some((color, PieceKind::Emperor)),
    ensures
        king_from(cells, color, i) is None,
    decreases 64 - i,
{
    if i < 64 {
        lemma_king_from_none(cells, color, i + 1);
    }
}

proof fn lemma_king_from_only(cells: Seq<Cell>, color: Color, i: nat, k: int)
    requires
        i <= k < 64,
        cells[k] == Some((color, PieceKind::Emperor)),
        forall|s: int| i <= s < k ==> cells[s] != Some((color, PieceKind::Emperor)),
    ensures
        king_from(cells, color, i) == Some(k),
    decreases k - i,
{
    if i < k {
        lemma_king_from_only(cells, color, i + 1, k);
    }
}

proof fn lemma_shield_at_mirror(b: Seq<Cell>, m: Seq<Cell>, c: Color, f: int, r: int, bonus: int)
    requires
        colour_mirror(b, m),
    ensures
        shield_at(m, c.spec_opposite(), f, 7 - r, bonus) == shield_at(b, c, f, r, bonus),
{
    if on_board(f, r) {
        let sq = sq_of(f, r);
        lemma_mirror_coords(sq);
        assert(file_of(sq) == f && rank_of(sq) == r);
        assert(mirror(sq) == sq_of(f, 7 - r));
        assert(m[mirror(sq)] == swap_colour(b[sq]));
        lemma_swap_knight(b[sq], c);
    }
}

/// With at most one Emperor a side, swapping the colours and mirroring the
/// ranks gives the other colour the same king-safety penalty.
pub proof fn law_king_safety_mirror(b: Seq<Cell>, m: Seq<Cell>, c: Color)
    requires
        colour_mirror(b, m),
        one_emperor(b, c),
    ensures
        king_safety_penalty(m, c.spec_opposite()) == king_safety_penalty(b, c),
{
    let o = c.spec_opposite();
    assert forall|s: int| 0 <= s < 64 implies (#[trigger] m[mirror(s)] == Some((o, PieceKind::Emperor))) == (b[s]
        == Some((c, PieceKind::Emperor))) by {
        assert(m[mirror(s)] == swap_colour(b[s]));
    }
    if exists|k: int| 0 <= k < 64 && b[k] == Some((c, PieceKind::Emperor)) {
        let k = choose|k: int| 0 <= k < 64 && b[k] == Some((c, PieceKind::Emperor));
        lemma_mirror_coords(k);
        let mk = mirror(k);
        assert(m[mk] == Some((o, PieceKind::Emperor)));
        assert forall|s: int| 0 <= s < k implies b[s] != Some((c, PieceKind::Emperor)) by {}
        lemma_king_from_only(b, c, 0, k);
        assert forall|s: int| 0 <= s < mk implies m[s] != Some((o, PieceKind::Emperor)) by {
            lemma_mirror_coords(s);
            assert(m[mirror(mirror(s))] == swap_colour(b[mirror(s)]));
            if m[s] == Some((o, PieceKind::Emperor)) {
                assert(b[mirror(s)] == Some((c, PieceKind::Emperor)));
            }
        }
        lemma_king_from_only(m, o, 0, mk);
        let f = file_of(k);
        let r = rank_of(k);
        let fw = forward(c);
        assert(forward(o) == -fw);
        assert(home_rank(o) == 7 - home_rank(c));
        lemma_shield_at_mirror(b, m, c, f - 1, r + fw, 30);
        lemma_shield_at_mirror(b, m, c, f, r + fw, 30);
        lemma_shield_at_mirror(b, m, c, f + 1, r + fw, 30);
        lemma_shield_at_mirror(b, m, c, f - 1, r + 2 * fw, 20);
        lemma_shield_at_mirror(b, m, c, f, r + 2 * fw, 20);
        lemma_shield_at_mirror(b, m, c, f + 1, r + 2 * fw, 20);
        assert(shield(m, o, mk) == shield(b, c, k));
    } else {
        lemma_king_from_none(b, c, 0);
        assert forall|s: int| 0 <= s < 64 implies m[s] != Some((o, PieceKind::Emperor)) by {
            lemma_mirror_coords(s);
            assert(m[mirror(mirror(s))] == swap_colour(b[mirror(s)]));
        }
        lemma_king_from_none(m, o, 0);
    }
}

// ---------------------------------------------------------------------------
// Move counts under the colour mirror
// ---------------------------------------------------------------------------

/// A leap offset with its rank step reversed.
pub open spec fn flip(o: (i8, i8)) -> (i8, i8) {
    (o.0, (-(o.1 as int)) as i8)
}

proof fn lemma_cell_mirror(b: Seq<Cell>, m: Seq<Cell>, f: int, r: int)
    requires
        colour_mirror(b, m),
        on_board(f, r),
    ensures
        m[sq_of(f, 7 - r)] == swap_colour(b[sq_of(f, r)]),
{
    let sq = sq_of(f, r);
    lemma_mirror_coords(sq);
    assert(file_of(sq) == f && rank_of(sq) == r);
    assert(m[mirror(sq)] == swap_colour(b[sq]));
}

proof fn lemma_leap_count_mirror(b: Seq<Cell>, m: Seq<Cell>, c: Color, sq: int, o: (i8, i8), co: bool, jump: bool)
    requires
        colour_mirror(b, m),
        0 <= sq < 64,
        -2 <= o.0 <= 2,
        -2 <= o.1 <= 2,
    ensures
        leap_moves(m, mirror(sq), o, c.spec_opposite(), co, jump).len() == leap_moves(
            b,
            sq,
            flip(o),
            c,
            co,
            jump,
        ).len(),
{
    lemma_mirror_coords(sq);
    let f = file_of(sq);
    let r = rank_of(sq);
    let fo = flip(o);
    assert(fo.1 == -o.1);
    if on_board(f + o.0, r - o.1) {
        lemma_cell_mirror(b, m, f + o.0, r - o.1);
        assert(7 - (r - o.1) == 7 - r + o.1);
    }
    if on_board(f + sign(o.0 as int), r) {
        lemma_cell_mirror(b, m, f + sign(o.0 as int), r);
    }
    if on_board(f, r - sign(o.1 as int)) {
        lemma_cell_mirror(b, m, f, r - sign(o.1 as int));
        assert(7 - (r - sign(o.1 as int)) == 7 - r + sign(o.1 as int));
    }
    assert(sign(fo.1 as int) == -sign(o.1 as int));
}

/// The offsets of each fixed set, with their rank steps reversed, are the
/// same set in another order, so summing any function over them gives the
/// same total.
proof fn lemma_flip_sums(g: spec_fn((i8, i8)) -> int)
    ensures
        sum_to(|j: int| g(flip(ADJACENT@[j])), 8) == sum_to(|j: int| g(ADJACENT@[j]), 8),
        sum_to(|j: int| g(flip(KNIGHT_JUMPS@[j])), 8) == sum_to(|j: int| g(KNIGHT_JUMPS@[j]), 8),
        sum_to(|j: int| g(flip(DIAGONALS@[j])), 4) == sum_to(|j: int| g(DIAGONALS@[j]), 4),
        sum_to(|j: int| g(flip(ORTHOGONALS@[j])), 4) == sum_to(|j: int| g(ORTHOGONALS@[j]), 4),
        sum_to(|j: int| g(flip(PALADIN_JUMPS@[j])), 4) == sum_to(|j: int| g(PALADIN_JUMPS@[j]), 4),
{
    assert(ADJACENT@ == seq![(-1i8, -1i8), (-1i8, 0i8), (-1i8, 1i8), (0i8, -1i8), (0i8, 1i8), (1i8, -1i8), (1i8, 0i8), (1i8, 1i8)]);
    assert(KNIGHT_JUMPS@ == seq![(-2i8, 1i8), (-1i8, 2i8), (1i8, 2i8), (2i8, 1i8), (2i8, -1i8), (1i8, -2i8), (-1i8, -2i8), (-2i8, -1i8)]);
    assert(DIAGONALS@ == seq![(-1i8, -1i8), (-1i8, 1i8), (1i8, -1i8), (1i8, 1i8)]);
    assert(ORTHOGONALS@ == seq![(1i8, 0i8), (-1i8, 0i8), (0i8, 1i8), (0i8, -1i8)]);
    assert(PALADIN_JUMPS@ == seq![(-2i8, 0i8), (2i8, 0i8), (0i8, -2i8), (0i8, 2i8)]);
    reveal_with_fuel(sum_to, 9);
    assert(flip((-1i8, -1i8)) == (-1i8, 1i8) && flip((-1i8, 0i8)) == (-1i8, 0i8) && flip((-1i8, 1i8)) == (-1i8, -1i8));
    assert(flip((0i8, -1i8)) == (0i8, 1i8) && flip((0i8, 1i8)) == (0i8, -1i8));
    assert(flip((1i8, -1i8)) == (1i8, 1i8) && flip((1i8, 0i8)) == (1i8, 0i8) && flip((1i8, 1i8)) == (1i8, -1i8));
    assert(flip((-2i8, 1i8)) == (-2i8, -1i8) && flip((-1i8, 2i8)) == (-1i8, -2i8) && flip((1i8, 2i8)) == (1i8, -2i8));
    assert(flip((2i8, 1i8)) == (2i8, -1i8) && flip((2i8, -1i8)) == (2i8, 1i8) && flip((1i8, -2i8)) == (1i8, 2i8));
    assert(flip((-1i8, -2i8)) == (-1i8, 2i8) && flip((-2i8, -1i8)) == (-2i8, 1i8));
    assert(flip((-2i8, 0i8)) == (-2i8, 0i8) && flip((2i8, 0i8)) == (2i8, 0i8) && flip((0i8, -2i8)) == (0i8, 2i8)
        && flip((0i8, 2i8)) == (0i8, -2i8));
}

proof fn lemma_leaper_len(cells: Seq<Cell>, from: int, offs: Seq<(i8, i8)>, color: Color, co: bool, jump: bool)
    ensures
        leaper_moves(cells, from, offs, color, co, jump).len() == sum_to(
            |j: int| leap_moves(cells, from, offs[j], color, co, jump).len() as int,
            offs.len(),
        ),
    decreases offs.len(),
{
    if offs.len() > 0 {
        let init = offs.drop_last();
        lemma_leaper_len(cells, from, init, color, co, jump);
        let fa = |j: int| leap_moves(cells, from, offs[j], color, co, jump).len() as int;
        let fi = |j: int| leap_moves(cells, from, init[j], color, co, jump).len() as int;
        assert forall|j: int| 0 <= j < init.len() implies #[trigger] fi(j) == fa(j) by {
            assert(init[j] == offs[j]);
        }
        lemma_sum_ext(fi, fa, init.len());
    }
}

proof fn lemma_leaper_set_mirror(b: Seq<Cell>, m: Seq<Cell>, c: Color, sq: int, offs: Seq<(i8, i8)>, co: bool, jump: bool)
    requires
        colour_mirror(b, m),
        0 <= sq < 64,
        offs == ADJACENT@ || offs == KNIGHT_JUMPS@,
    ensures
        leaper_moves(m, mirror(sq), offs, c.spec_opposite(), co, jump).len() == leaper_moves(
            b,
            sq,
            offs,
            c,
            co,
            jump,
        ).len(),
{
    assert(ADJACENT@ == seq![(-1i8, -1i8), (-1i8, 0i8), (-1i8, 1i8), (0i8, -1i8), (0i8, 1i8), (1i8, -1i8), (1i8, 0i8), (1i8, 1i8)]);
    assert(KNIGHT_JUMPS@ == seq![(-2i8, 1i8), (-1i8, 2i8), (1i8, 2i8), (2i8, 1i8), (2i8, -1i8), (1i8, -2i8), (-1i8, -2i8), (-2i8, -1i8)]);
    lemma_leaper_len(m, mirror(sq), offs, c.spec_opposite(), co, jump);
    lemma_leaper_len(b, sq, offs, c, co, jump);
    let g = |o: (i8, i8)| leap_moves(b, sq, o, c, co, jump).len() as int;
    let fm = |j: int| leap_moves(m, mirror(sq), offs[j], c.spec_opposite(), co, jump).len() as int;
    let gf = |j: int| g(flip(offs[j]));
    assert forall|j: int| 0 <= j < offs.len() implies #[trigger] fm(j) == gf(j) by {
        lemma_leap_count_mirror(b, m, c, sq, offs[j], co, jump);
    }
    lemma_sum_ext(fm, gf, offs.len());
    lemma_flip_sums(g);
    let gb = |j: int| g(offs[j]);
    let fb = |j: int| leap_moves(b, sq, offs[j], c, co, jump).len() as int;
    assert forall|j: int| 0 <= j < offs.len() implies #[trigger] gb(j) == fb(j) by {}
    lemma_sum_ext(gb, fb, offs.len());
}

/// `t2` is `t1` square by square mirrored.
pub open spec fn mirrored_targets(t1: Seq<int>, t2: Seq<int>) -> bool {
    t1.len() == t2.len() && forall|i: int| 0 <= i < t1.len() ==> 0 <= #[trigger] t1[i] < 64 && t2[i] == mirror(t1[i])
}

proof fn lemma_walk_count_mirror(b: Seq<Cell>, m: Seq<Cell>, c: Color, f1: int, f2: int, t1: Seq<int>, t2: Seq<int>, co: bool, jump: bool)
    requires
        colour_mirror(b, m),
        mirrored_targets(t1, t2),
    ensures
        slide_moves(m, f2, t2, c.spec_opposite(), co, jump).len() == slide_moves(b, f1, t1, c, co, jump).len(),
        hop_moves(m, f2, t2, c.spec_opposite(), co).len() == hop_moves(b, f1, t1, c, co).len(),
    decreases t1.len(),
{
    if t1.len() > 0 {
        let r1 = t1.drop_first();
        let r2 = t2.drop_first();
        assert(mirrored_targets(r1, r2)) by {
            assert forall|i: int| 0 <= i < r1.len() implies 0 <= #[trigger] r1[i] < 64 && r2[i] == mirror(r1[i]) by {
                assert(r1[i] == t1[i + 1] && r2[i] == t2[i + 1]);
            }
        }
        lemma_walk_count_mirror(b, m, c, f1, f2, r1, r2, co, jump);
        assert(0 <= t1[0] < 64 && t2[0] == mirror(t1[0]));
        assert(m[mirror(t1[0])] == swap_colour(b[t1[0]]));
    }
}

proof fn lemma_ray_mirror(sq: int, df: int, dr: int)
    requires
        0 <= sq < 64,
        is_direction(df, dr),
    ensures
        mirrored_targets(ray(sq, df, dr), ray(mirror(sq), df, -dr)),
{
    lemma_mirror_coords(sq);
    lemma_ray_facts(sq, df, dr);
    lemma_ray_facts(mirror(sq), df, -dr);
    let f = file_of(sq);
    let r = rank_of(sq);
    assert(ray_len(mirror(sq), df, -dr) == ray_len(sq, df, dr));
    let t1 = ray(sq, df, dr);
    let t2 = ray(mirror(sq), df, -dr);
    assert forall|i: int| 0 <= i < t1.len() implies 0 <= #[trigger] t1[i] < 64 && t2[i] == mirror(t1[i]) by {
        assert(on_board(step(f, i + 1, df), step(r, i + 1, dr)));
        let x = sq_of(step(f, i + 1, df), step(r, i + 1, dr));
        lemma_mirror_coords(x);
        assert(file_of(x) == step(f, i + 1, df) && rank_of(x) == step(r, i + 1, dr));
        assert(step(7 - r, i + 1, -dr) == 7 - step(r, i + 1, dr));
    }
}

proof fn lemma_sliding_len(cells: Seq<Cell>, from: int, dirs: Seq<(i8, i8)>, color: Color, co: bool, jump: bool)
    ensures
        sliding_moves(cells, from, dirs, color, co, jump).len() == sum_to(
            |j: int| direction_moves(cells, from, dirs[j], color, co, jump).len() as int,
            dirs.len(),
        ),
        dragon_dirs(cells, from, dirs, color, co).len() == sum_to(
            |j: int| hop_moves(cells, from, ray(from, dirs[j].0 as int, dirs[j].1 as int), color, co).len() as int,
            dirs.len(),
        ),
    decreases dirs.len(),
{
    if dirs.len() > 0 {
        let init = dirs.drop_last();
        lemma_sliding_len(cells, from, init, color, co, jump);
        let fa = |j: int| direction_moves(cells, from, dirs[j], color, co, jump).len() as int;
        let fi = |j: int| direction_moves(cells, from, init[j], color, co, jump).len() as int;
        let ha = |j: int| hop_moves(cells, from, ray(from, dirs[j].0 as int, dirs[j].1 as int), color, co).len() as int;
        let hi = |j: int| hop_moves(cells, from, ray(from, init[j].0 as int, init[j].1 as int), color, co).len() as int;
        assert forall|j: int| 0 <= j < init.len() implies #[trigger] fi(j) == fa(j) && hi(j) == ha(j) by {
            assert(init[j] == dirs[j]);
        }
        lemma_sum_ext(fi, fa, init.len());
        lemma_sum_ext(hi, ha, init.len());
    }
}

proof fn lemma_sliding_set_mirror(b: Seq<Cell>, m: Seq<Cell>, c: Color, sq: int, dirs: Seq<(i8, i8)>, co: bool, jump: bool)
    requires
        colour_mirror(b, m),
        0 <= sq < 64,
        dirs == ADJACENT@ || dirs == DIAGONALS@ || dirs == ORTHOGONALS@,
    ensures
        sliding_moves(m, mirror(sq), dirs, c.spec_opposite(), co, jump).len() == sliding_moves(
            b,
            sq,
            dirs,
            c,
            co,
            jump,
        ).len(),
        dragon_dirs(m, mirror(sq), dirs, c.spec_opposite(), co).len() == dragon_dirs(b, sq, dirs, c, co).len(),
{
    assert(ADJACENT@ == seq![(-1i8, -1i8), (-1i8, 0i8), (-1i8, 1i8), (0i8, -1i8), (0i8, 1i8), (1i8, -1i8), (1i8, 0i8), (1i8, 1i8)]);
    assert(DIAGONALS@ == seq![(-1i8, -1i8), (-1i8, 1i8), (1i8, -1i8), (1i8, 1i8)]);
    assert(ORTHOGONALS@ == seq![(1i8, 0i8), (-1i8, 0i8), (0i8, 1i8), (0i8, -1i8)]);
    let o = c.spec_opposite();
    let ms = mirror(sq);
    lemma_sliding_len(m, ms, dirs, o, co, jump);
    lemma_sliding_len(b, sq, dirs, c, co, jump);
    let g = |d: (i8, i8)| direction_moves(b, sq, d, c, co, jump).len() as int;
    let h = |d: (i8, i8)| hop_moves(b, sq, ray(sq, d.0 as int, d.1 as int), c, co).len() as int;
    let fm = |j: int| direction_moves(m, ms, dirs[j], o, co, jump).len() as int;
    let hm = |j: int| hop_moves(m, ms, ray(ms, dirs[j].0 as int, dirs[j].1 as int), o, co).len() as int;
    let gf = |j: int| g(flip(dirs[j]));
    let hf = |j: int| h(flip(dirs[j]));
    assert forall|j: int| #![trigger fm(j)] #![trigger hm(j)] 0 <= j < dirs.len() implies fm(j) == gf(j) && hm(j) == hf(j) by {
        let d = dirs[j];
        let fd = flip(d);
        assert(is_direction(d.0 as int, d.1 as int));
        assert(fd.0 as int == d.0 as int && fd.1 as int == -(d.1 as int));
        lemma_ray_mirror(sq, fd.0 as int, fd.1 as int);
        assert(-(fd.1 as int) == d.1 as int);
        lemma_walk_count_mirror(b, m, c, sq, ms, ray(sq, fd.0 as int, fd.1 as int), ray(ms, d.0 as int, d.1 as int), co, jump);
    }
    lemma_sum_ext(fm, gf, dirs.len());
    lemma_sum_ext(hm, hf, dirs.len());
    lemma_flip_sums(g);
    lemma_flip_sums(h);
    let gb = |j: int| g(dirs[j]);
    let hb = |j: int| h(dirs[j]);
    let fb = |j: int| direction_moves(b, sq, dirs[j], c, co, jump).len() as int;
    let hb2 = |j: int| hop_moves(b, sq, ray(sq, dirs[j].0 as int, dirs[j].1 as int), c, co).len() as int;
    assert forall|j: int| #![trigger gb(j)] #![trigger hb(j)] 0 <= j < dirs.len() implies gb(j) == fb(j) && hb(j) == hb2(j) by {}
    lemma_sum_ext(gb, fb, dirs.len());
    lemma_sum_ext(hb, hb2, dirs.len());
}

proof fn lemma_paladin_jump_count_mirror(b: Seq<Cell>, m: Seq<Cell>, c: Color, sq: int, o: (i8, i8), co: bool)
    requires
        colour_mirror(b, m),
        0 <= sq < 64,
        -2 <= o.0 <= 2,
        -2 <= o.1 <= 2,
    ensures
        paladin_jump_moves(m, mirror(sq), o, c.spec_opposite(), co).len() == paladin_jump_moves(
            b,
            sq,
            flip(o),
            c,
            co,
        ).len(),
{
    lemma_mirror_coords(sq);
    let f = file_of(sq);
    let r = rank_of(sq);
    let fo = flip(o);
    assert(fo.1 == -o.1);
    assert(sign(fo.1 as int) == -sign(o.1 as int));
    if on_board(f + o.0, r - o.1) {
        lemma_cell_mirror(b, m, f + o.0, r - o.1);
        assert(7 - (r - o.1) == 7 - r + o.1);
    }
    if on_board(f + sign(o.0 as int), r - sign(o.1 as int)) {
        lemma_cell_mirror(b, m, f + sign(o.0 as int), r - sign(o.1 as int));
        assert(7 - (r - sign(o.1 as int)) == 7 - r + sign(o.1 as int));
    }
}

proof fn lemma_paladin_len(cells: Seq<Cell>, from: int, offs: Seq<(i8, i8)>, color: Color, co: bool)
    ensures
        paladin_jumps(cells, from, offs, color, co).len() == sum_to(
            |j: int| paladin_jump_moves(cells, from, offs[j], color, co).len() as int,
            offs.len(),
        ),
    decreases offs.len(),
{
    if offs.len() > 0 {
        let init = offs.drop_last();
        lemma_paladin_len(cells, from, init, color, co);
        let fa = |j: int| paladin_jump_moves(cells, from, offs[j], color, co).len() as int;
        let fi = |j: int| paladin_jump_moves(cells, from, init[j], color, co).len() as int;
        assert forall|j: int| 0 <= j < init.len() implies #[trigger] fi(j) == fa(j) by {
            assert(init[j] == offs[j]);
        }
        lemma_sum_ext(fi, fa, init.len());
    }
}

proof fn lemma_paladin_set_mirror(b: Seq<Cell>, m: Seq<Cell>, c: Color, sq: int, co: bool)
    requires
        colour_mirror(b, m),
        0 <= sq < 64,
    ensures
        paladin_jumps(m, mirror(sq), PALADIN_JUMPS@, c.spec_opposite(), co).len() == paladin_jumps(
            b,
            sq,
            PALADIN_JUMPS@,
            c,
            co,
        ).len(),
{
    let offs = PALADIN_JUMPS@;
    assert(offs == seq![(-2i8, 0i8), (2i8, 0i8), (0i8, -2i8), (0i8, 2i8)]);
    lemma_paladin_len(m, mirror(sq), offs, c.spec_opposite(), co);
    lemma_paladin_len(b, sq, offs, c, co);
    let g = |o: (i8, i8)| paladin_jump_moves(b, sq, o, c, co).len() as int;
    let fm = |j: int| paladin_jump_moves(m, mirror(sq), offs[j], c.spec_opposite(), co).len() as int;
    let gf = |j: int| g(flip(offs[j]));
    assert forall|j: int| 0 <= j < offs.len() implies #[trigger] fm(j) == gf(j) by {
        lemma_paladin_jump_count_mirror(b, m, c, sq, offs[j], co);
    }
    lemma_sum_ext(fm, gf, offs.len());
    lemma_flip_sums(g);
    let gb = |j: int| g(offs[j]);
    let fb = |j: int| paladin_jump_moves(b, sq, offs[j], c, co).len() as int;
    assert forall|j: int| 0 <= j < offs.len() implies #[trigger] gb(j) == fb(j) by {}
    lemma_sum_ext(gb, fb, offs.len());
}

proof fn lemma_knight_count_mirror(b: Seq<Cell>, m: Seq<Cell>, c: Color, sq: int, co: bool)
    requires
        colour_mirror(b, m),
        0 <= sq < 64,
    ensures
        knight_moves(m, mirror(sq), c.spec_opposite(), co).len() == knight_moves(b, sq, c, co).len(),
{
    lemma_mirror_coords(sq);
    let f = file_of(sq);
    let r = rank_of(sq);
    let fw = forward(c);
    assert(forward(c.spec_opposite()) == -fw);
    assert(start_rank(c.spec_opposite()) == 7 - start_rank(c));
    if on_board(f, r + fw) {
        lemma_cell_mirror(b, m, f, r + fw);
    }
    if on_board(f, r + 2 * fw) {
        lemma_cell_mirror(b, m, f, r + 2 * fw);
    }
    if on_board(f - 1, r + fw) {
        lemma_cell_mirror(b, m, f - 1, r + fw);
    }
    if on_board(f + 1, r + fw) {
        lemma_cell_mirror(b, m, f + 1, r + fw);
    }
    assert(knight_quiet_moves(m, mirror(sq), c.spec_opposite(), co).len() == knight_quiet_moves(b, sq, c, co).len());
    assert(knight_capture(m, mirror(sq), c.spec_opposite(), -1).len() == knight_capture(b, sq, c, -1).len());
    assert(knight_capture(m, mirror(sq), c.spec_opposite(), 1).len() == knight_capture(b, sq, c, 1).len());
}

proof fn lemma_moves_for_count_mirror(b: Seq<Cell>, m: Seq<Cell>, sq: int, co: bool)
    requires
        colour_mirror(b, m),
        0 <= sq < 64,
    ensures
        moves_for(m, mirror(sq), co).len() == moves_for(b, sq, co).len(),
{
    assert(m[mirror(sq)] == swap_colour(b[sq]));
    if let Some((c, k)) = b[sq] {
        match k {
            PieceKind::Emperor => {
                lemma_leaper_set_mirror(b, m, c, sq, ADJACENT@, co, true);
            },
            PieceKind::Empress => {
                lemma_sliding_set_mirror(b, m, c, sq, ADJACENT@, co, false);
            },
            PieceKind::Priest => {
                lemma_sliding_set_mirror(b, m, c, sq, DIAGONALS@, co, false);
                lemma_leaper_set_mirror(b, m, c, sq, KNIGHT_JUMPS@, co, true);
            },
            PieceKind::Paladin => {
                lemma_leaper_set_mirror(b, m, c, sq, ADJACENT@, co, true);
                lemma_paladin_set_mirror(b, m, c, sq, co);
            },
            PieceKind::Dragon => {
                lemma_sliding_set_mirror(b, m, c, sq, ORTHOGONALS@, co, false);
            },
            PieceKind::Knight => {
                lemma_knight_count_mirror(b, m, c, sq, co);
            },
        }
    }
}

/// How many moves the piece on `sq` gives `color`: its moves when it is one
/// of `color`'s pieces, none otherwise.
pub open spec fn side_count(cells: Seq<Cell>, color: Color, co: bool, sq: int) -> int {
    if owned_by(cells[sq], color) {
        moves_for(cells, sq, co).len() as int
    } else {
        0
    }
}

proof fn lemma_side_len(cells: Seq<Cell>, color: Color, co: bool, n: nat)
    ensures
        moves_of_side(cells, color, co, n).len() == sum_to(|sq: int| side_count(cells, color, co, sq), n),
    decreases n,
{
    if n > 0 {
        lemma_side_len(cells, color, co, (n - 1) as nat);
    }
}

/// Swapping the colours and mirroring the ranks gives the other colour as
/// many pseudo-legal moves, and so the same mobility bonus.
pub proof fn law_mobility_mirror(b: Seq<Cell>, m: Seq<Cell>, c: Color)
    requires
        colour_mirror(b, m),
    ensures
        pseudo_moves(m, c.spec_opposite()).len() == pseudo_moves(b, c).len(),
        mobility_bonus(m, c.spec_opposite()) == mobility_bonus(b, c),
{
    let o = c.spec_opposite();
    lemma_side_len(m, o, false, 64);
    lemma_side_len(b, c, false, 64);
    let fm = |sq: int| side_count(m, o, false, sq);
    let fb = |sq: int| side_count(b, c, false, sq);
    lemma_sum_mirror(fm);
    let gm = |sq: int| fm(mirror(sq));
    assert forall|i: int| 0 <= i < 64 implies #[trigger] gm(i) == fb(i) by {
        assert(m[mirror(i)] == swap_colour(b[i]));
        lemma_moves_for_count_mirror(b, m, i, false);
    }
    lemma_sum_ext(gm, fb, 64);
}

/// The colours of every piece swapped and the ranks mirrored, with at most
/// one Emperor a side, the middle-game and end-game scores (from White's
/// side) are negated.
pub proof fn law_evaluation_mirror(b: Seq<Cell>, m: Seq<Cell>)
    requires
        colour_mirror(b, m),
        one_emperor(b, Color::White),
        one_emperor(b, Color::Black),
    ensures
        middle_game_score(m) == -middle_game_score(b),
        end_game_score(m) == -end_game_score(b),
{
    law_material_mirror(b, m);
    law_knight_structure_mirror(b, m, Color::White);
    law_knight_structure_mirror(b, m, Color::Black);
    law_development_mirror(b, m, Color::White, 8);
    law_development_mirror(b, m, Color::Black, 8);
    law_centre_mirror(b, m, Color::White);
    law_centre_mirror(b, m, Color::Black);
    law_king_safety_mirror(b, m, Color::White);
    law_king_safety_mirror(b, m, Color::Black);
    law_mobility_mirror(b, m, Color::White);
    law_mobility_mirror(b, m, Color::Black);
    let d = mobility_bonus(b, Color::White) - mobility_bonus(b, Color::Black);
    assert(half_toward_zero(-d) == -half_toward_zero(d));
}

proof fn lemma_phase_len(cells: Seq<Cell>, n: nat)
    ensures
        phase_sum(cells, n) == sum_to(|sq: int| phase_weight(cells[sq]), n),
    decreases n,
{
    if n > 0 {
        lemma_phase_len(cells, (n - 1) as nat);
    }
}

/// Swapping the colours and mirroring the ranks keeps the weighted material
/// that decides the blend of the two phases.
pub proof fn law_phase_mirror(b: Seq<Cell>, m: Seq<Cell>)
    requires
        colour_mirror(b, m),
    ensures
        phase_sum(m, 64) == phase_sum(b, 64),
{
    lemma_phase_len(m, 64);
    lemma_phase_len(b, 64);
    let fm = |sq: int| phase_weight(m[sq]);
    let fb = |sq: int| phase_weight(b[sq]);
    lemma_sum_mirror(fm);
    let gm = |sq: int| fm(mirror(sq));
    assert forall|i: int| 0 <= i < 64 implies #[trigger] gm(i) == fb(i) by {
        assert(m[mirror(i)] == swap_colour(b[i]));
    }
    lemma_sum_ext(gm, fb, 64);
}

} // verus!
