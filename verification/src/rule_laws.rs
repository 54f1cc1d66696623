//! Laws of single rules: how Knights step, how material counts, and what the
//! client tells the player when a game ends.

use vstd::prelude::*;
use crate::board::{file_of, moves_for, on_board, rank_of, sq_of, Cell};
use crate::pieces::{knight_capture, knight_quiet_moves};
use crate::evaluation::{centre_sum, development_sum, home_rank, king_safety_penalty, knight_bonus, knight_home_rank, knight_structure_sum, middle_game_score, own_knight, shield, shield_at, end_game_score, half_toward_zero, mobility_bonus, material_eg, material_mg, square_eg, square_mg, EG, MG, PST_EG, PST_MG};
use crate::types::{Color, PieceKind};
use crate::board::{in_check, king_from, king_square, legal_moves};
use crate::session::{with_status, SessionView};
use crate::client::{react, ClientView};
use crate::protocol::MessageView;

verus! {

proof fn lemma_coords(f: int, r: int)
    requires
        on_board(f, r),
    ensures
        0 <= sq_of(f, r) < 64,
        file_of(sq_of(f, r)) == f,
        rank_of(sq_of(f, r)) == r,
{
}

/// A Knight's non-capturing moves go straight forward (up the board for
/// White, down for Black) onto an empty square: one rank, or two ranks only
/// from its start rank (rank 1 for White, rank 6 for Black) with the square
/// in between empty as well. A Knight with an empty square straight ahead
/// always has the one-rank move.
pub proof fn law_knight_quiet_moves(cells: Seq<Cell>, sq: int, c: Color)
    requires
        0 <= sq < 64,
        cells[sq] == Some((c, PieceKind::Knight)),
    ensures
        ({
            let dir: int = if c == Color::White {
                1
            } else {
                -1
            };
            let start: int = if c == Color::White {
                1
            } else {
                6
            };
            let ms = moves_for(cells, sq, false);
            &&& forall|i: int|
                0 <= i < ms.len() && !(#[trigger] ms[i]).capture ==> {
                    let t = ms[i].to as int;
                    &&& 0 <= t < 64
                    &&& file_of(t) == file_of(sq)
                    &&& cells[t] is None
                    &&& (rank_of(t) == rank_of(sq) + dir || (rank_of(sq) == start && rank_of(t) == rank_of(sq)
                        + 2 * dir && cells[sq_of(file_of(sq), rank_of(sq) + dir)] is None))
                }
            &&& on_board(file_of(sq), rank_of(sq) + dir) && cells[sq_of(file_of(sq), rank_of(sq) + dir)] is None
                ==> exists|i: int|
                0 <= i < ms.len() && !(#[trigger] ms[i]).capture && ms[i].to as int == sq_of(
                    file_of(sq),
                    rank_of(sq) + dir,
                )
        }),
{
    let f = file_of(sq);
    let r = rank_of(sq);
    let dir: int = if c == Color::White {
        1
    } else {
        -1
    };
    let q = knight_quiet_moves(cells, sq, c, false);
    let a = knight_capture(cells, sq, c, -1);
    let b = knight_capture(cells, sq, c, 1);
    let ms = moves_for(cells, sq, false);
    assert(ms == q + a + b);
    if on_board(f, r + dir) {
        lemma_coords(f, r + dir);
    }
    if on_board(f, r + 2 * dir) {
        lemma_coords(f, r + 2 * dir);
    }
    assert forall|i: int| 0 <= i < ms.len() && !(#[trigger] ms[i]).capture implies {
        let t = ms[i].to as int;
        &&& 0 <= t < 64
        &&& file_of(t) == f
        &&& cells[t] is None
        &&& (rank_of(t) == r + dir || (r == (if c == Color::White { 1int } else { 6int }) && rank_of(t) == r + 2
            * dir && cells[sq_of(f, r + dir)] is None))
    } by {
        if i >= q.len() + a.len() {
            assert(ms[i] == b[i - q.len() - a.len()]);
        } else if i >= q.len() {
            assert(ms[i] == a[i - q.len()]);
        } else {
            assert(ms[i] == q[i]);
        }
    }
    if on_board(f, r + dir) && cells[sq_of(f, r + dir)] is None {
        assert(ms[0] == q[0]);
    }
}

/// Every piece is worth more than nothing on every square, in both phases.
proof fn lemma_values_positive(i: int, s: int)
    requires
        0 <= i < 6,
        0 <= s < 64,
    ensures
        MG@[i] + PST_MG@[i]@[s] > 0,
        EG@[i] + PST_EG@[i]@[s] > 0,
{
    assert(forall|kk: int, t: int| 0 <= kk < 6 && 0 <= t < 64 ==> #[trigger] PST_MG@[kk]@[t] >= if kk == 0 {
        -30int
    } else if kk == 1 || kk == 2 {
        -20int
    } else if kk == 3 {
        -15int
    } else if kk == 4 {
        -5int
    } else {
        0int
    }) by {}
    assert(forall|kk: int, t: int| 0 <= kk < 6 && 0 <= t < 64 ==> #[trigger] PST_EG@[kk]@[t] >= if kk == 0 {
        -50int
    } else if kk == 1 || kk == 2 {
        -10int
    } else if kk == 3 {
        -5int
    } else {
        0int
    }) by {}
}

proof fn lemma_material_update(cells: Seq<Cell>, sq: int, x: Cell, n: nat)
    requires
        0 <= sq < cells.len(),
        cells[sq] is None,
        n <= cells.len(),
    ensures
        material_mg(cells.update(sq, x), n) == material_mg(cells, n) + if sq < n {
            square_mg(x, sq)
        } else {
            0
        },
        material_eg(cells.update(sq, x), n) == material_eg(cells, n) + if sq < n {
            square_eg(x, sq)
        } else {
            0
        },
    decreases n,
{
    if n > 0 {
        lemma_material_update(cells, sq, x, (n - 1) as nat);
    }
}

/// Putting a piece on an empty square changes the material-and-table scores
/// (from White's side) by that piece's value: its material plus the table
/// value of its square, read from its own side of the board (the square
/// itself for White, the square with the rank mirrored for Black). The value
/// is added for a White piece and subtracted for a Black one, and it is always
/// positive, so a White piece raises both scores and a Black piece lowers them.
pub proof fn law_material_of_a_piece(cells: Seq<Cell>, sq: int, c: Color, k: PieceKind)
    requires
        cells.len() == 64,
        0 <= sq < 64,
        cells[sq] is None,
    ensures
        ({
            let i = k.spec_index();
            let ts = if c == Color::White {
                sq
            } else {
                sq_of(file_of(sq), 7 - rank_of(sq))
            };
            let vmg = MG@[i] + PST_MG@[i]@[ts];
            let veg = EG@[i] + PST_EG@[i]@[ts];
            &&& vmg > 0 && veg > 0
            &&& material_mg(cells.update(sq, Some((c, k))), 64) == material_mg(cells, 64) + if c
                == Color::White {
                vmg
            } else {
                -vmg
            }
            &&& material_eg(cells.update(sq, Some((c, k))), 64) == material_eg(cells, 64) + if c
                == Color::White {
                veg
            } else {
                -veg
            }
        }),
{
    lemma_material_update(cells, sq, Some((c, k)), 64);
    let ts = if c == Color::White {
        sq
    } else {
        sq_of(file_of(sq), 7 - rank_of(sq))
    };
    assert(0 <= ts < 64);
    lemma_values_positive(k.spec_index(), ts);
}

/// After the position is refreshed, the status line tells the player how the
/// game stands. When the side to move has no legal move and is in check, the
/// game is lost by the side to move: the player is told "Checkmate — you
/// win!" exactly when the side to move is the opponent, and "Checkmate — you
/// lose" when it is the player. Without legal moves and out of check it is a
/// draw. After either, the player may not move; while the game goes on, the
/// player may move exactly on the player's turn.
pub proof fn law_status_after_refresh(v: SessionView)
    ensures
        ({
            let w = with_status(v);
            let none = legal_moves(v.cells, v.turn).len() == 0;
            &&& none && in_check(v.cells, v.turn) && v.turn != v.player ==> w.status == "Checkmate — you win!"@
                && !w.our_turn
            &&& none && in_check(v.cells, v.turn) && v.turn == v.player ==> w.status == "Checkmate — you lose"@
                && !w.our_turn
            &&& none && !in_check(v.cells, v.turn) ==> w.status == "Stalemate — draw"@ && !w.our_turn
            &&& !none ==> w.our_turn == (v.turn == v.player)
        }),
{
}

/// When an online game ends, the status line names the result the server
/// reports: "You win!" exactly when the server reports a win, "You lose"
/// exactly when it reports a loss, "Draw" for a draw, and otherwise "Game
/// over: " followed by the reason. The player may no longer move.
pub proof fn law_game_over_status(c: ClientView, game_id: Seq<char>, reason: Seq<char>, result: Option<Seq<char>>)
    ensures
        ({
            let s = react(c, MessageView::GameOver { game_id, reason, result }).board.status;
            &&& (s == "You win!"@) <==> result == Some("win"@)
            &&& (s == "You lose"@) <==> result == Some("loss"@)
            &&& result == Some("draw"@) ==> s == "Draw"@
            &&& result != Some("win"@) && result != Some("loss"@) && result != Some("draw"@) ==> s == "Game over: "@
                + reason
            &&& !react(c, MessageView::GameOver { game_id, reason, result }).board.our_turn
        }),
{
    reveal_strlit("You win!");
    reveal_strlit("You lose");
    reveal_strlit("Draw");
    reveal_strlit("Game over: ");
    reveal_strlit("win");
    reveal_strlit("loss");
    reveal_strlit("draw");
    let g = "Game over: "@ + reason;
    let st = crate::client::game_over_status(reason, result);
    assert(react(c, MessageView::GameOver { game_id, reason, result }).board.status == st);
    assert("You win!"@.len() == 8 && "You lose"@.len() == 8 && "Draw"@.len() == 4);
    assert("You win!"@[4] == 'w' && "You lose"@[4] == 'l');
    assert(g[0] == 'G' && "You win!"@[0] == 'Y' && "You lose"@[0] == 'Y');
    assert("You win!"@ != "You lose"@);
    assert(g != "You win!"@ && g != "You lose"@);
    assert("win"@.len() == 3 && "loss"@.len() == 4 && "draw"@.len() == 4);
    assert("loss"@[0] == 'l' && "draw"@[0] == 'd');
    assert("win"@ != "loss"@ && "win"@ != "draw"@ && "loss"@ != "draw"@);
    assert("Draw"@ != "You win!"@ && "Draw"@ != "You lose"@);
}

/// Putting a piece on an empty square moves the end-game score (from
/// White's side) towards the piece's owner: up by at least 90 for a White
/// piece, down by at least 90 for a Black one. Its material and table value
/// (at least 150) outweighs any change in mobility (at most 60).
pub proof fn law_end_game_score_of_a_piece(cells: Seq<Cell>, sq: int, c: Color, k: PieceKind)
    requires
        cells.len() == 64,
        0 <= sq < 64,
        cells[sq] is None,
    ensures
        c == Color::White ==> end_game_score(cells.update(sq, Some((c, k)))) >= end_game_score(cells) + 90,
        c == Color::Black ==> end_game_score(cells.update(sq, Some((c, k)))) <= end_game_score(cells) - 90,
{
    let after = cells.update(sq, Some((c, k)));
    law_material_of_a_piece(cells, sq, c, k);
    let i = k.spec_index();
    let ts = if c == Color::White {
        sq
    } else {
        sq_of(file_of(sq), 7 - rank_of(sq))
    };
    assert(0 <= ts < 64);
    assert(EG@[i] + PST_EG@[i]@[ts] >= 150) by {
        assert(EG@ == [10_000i32, 950, 700, 500, 500, 150]@);
        assert(forall|kk: int, t: int| 0 <= kk < 6 && 0 <= t < 64 ==> #[trigger] PST_EG@[kk]@[t] >= if kk == 0 {
            -50int
        } else if kk == 1 || kk == 2 {
            -10int
        } else if kk == 3 {
            -5int
        } else {
            0int
        }) by {}
    }
    let d0 = mobility_bonus(cells, Color::White) - mobility_bonus(cells, Color::Black);
    let d1 = mobility_bonus(after, Color::White) - mobility_bonus(after, Color::Black);
    assert(-60 <= d0 <= 60 && -60 <= d1 <= 60);
    assert(-30 <= half_toward_zero(d0) <= 30 && -30 <= half_toward_zero(d1) <= 30);
}

proof fn lemma_knights_unchanged(cells: Seq<Cell>, sq: int, x: Cell, col: Color, n: nat)
    requires
        cells.len() == 64,
        0 <= sq < 64,
        cells[sq] is None,
        !(x matches Some((_, PieceKind::Knight))),
        n <= 64,
    ensures
        knight_structure_sum(cells.update(sq, x), col, n) == knight_structure_sum(cells, col, n),
    decreases n,
{
    if n > 0 {
        lemma_knights_unchanged(cells, sq, x, col, (n - 1) as nat);
        let after = cells.update(sq, x);
        let t = n - 1;
        assert(own_knight(after, col, t) == own_knight(cells, col, t));
        if t > 0 {
            assert(own_knight(after, col, t - 1) == own_knight(cells, col, t - 1));
        }
        if t < 63 {
            assert(own_knight(after, col, t + 1) == own_knight(cells, col, t + 1));
        }
        assert(knight_bonus(after, col, t) == knight_bonus(cells, col, t));
    }
}

proof fn lemma_development_change(cells: Seq<Cell>, sq: int, c: Color, k: PieceKind, col: Color, n: nat)
    requires
        cells.len() == 64,
        0 <= sq < 64,
        cells[sq] is None,
        k != PieceKind::Knight,
        n <= 8,
    ensures
        col == c ==> development_sum(cells, col, n) - 14 <= development_sum(cells.update(sq, Some((c, k))), col, n)
            <= development_sum(cells, col, n),
        col != c ==> development_sum(cells.update(sq, Some((c, k))), col, n) == development_sum(cells, col, n),
    decreases n,
{
    if n > 0 {
        lemma_development_change(cells, sq, c, k, col, (n - 1) as nat);
        let f = n - 1;
        let a = sq_of(f, home_rank(col));
        let b = sq_of(f, knight_home_rank(col));
        assert(0 <= a < 64 && 0 <= b < 64);
        let after = cells.update(sq, Some((c, k)));
        assert(own_knight(after, col, b) == own_knight(cells, col, b));
        if a == sq {
            assert(after[a] == Some((c, k)));
            if col == c {
                // The square lies on file f, so the earlier files see no change.
                lemma_development_same_before(cells, sq, c, k, col, (n - 1) as nat);
            }
        } else {
            assert(after[a] == cells[a]);
        }
    }
}

proof fn lemma_development_same_before(cells: Seq<Cell>, sq: int, c: Color, k: PieceKind, col: Color, n: nat)
    requires
        cells.len() == 64,
        0 <= sq < 64,
        cells[sq] is None,
        k != PieceKind::Knight,
        n <= 8,
        file_of(sq) >= n,
    ensures
        development_sum(cells.update(sq, Some((c, k))), col, n) == development_sum(cells, col, n),
    decreases n,
{
    if n > 0 {
        lemma_development_same_before(cells, sq, c, k, col, (n - 1) as nat);
        let f = n - 1;
        let after = cells.update(sq, Some((c, k)));
        let a = sq_of(f, home_rank(col));
        let b = sq_of(f, knight_home_rank(col));
        assert(file_of(a) == f && file_of(b) == f);
        assert(a != sq && b != sq);
        assert(after[a] == cells[a] && after[b] == cells[b]);
    }
}

proof fn lemma_king_from_unchanged(cells: Seq<Cell>, sq: int, x: Cell, col: Color, i: nat)
    requires
        cells.len() == 64,
        0 <= sq < 64,
        cells[sq] is None,
        !(x matches Some((_, PieceKind::Emperor))),
    ensures
        king_from(cells.update(sq, x), col, i) == king_from(cells, col, i),
    decreases 64 - i,
{
    if i < 64 {
        lemma_king_from_unchanged(cells, sq, x, col, i + 1);
    }
}

proof fn lemma_shield_at_unchanged(cells: Seq<Cell>, sq: int, x: Cell, col: Color, f: int, r: int, bonus: int)
    requires
        cells.len() == 64,
        0 <= sq < 64,
        cells[sq] is None,
        !(x matches Some((_, PieceKind::Knight))),
    ensures
        shield_at(cells.update(sq, x), col, f, r, bonus) == shield_at(cells, col, f, r, bonus),
{
    if on_board(f, r) {
        lemma_coords(f, r);
    }
}

/// Putting a piece other than an Emperor or a Knight on an empty square moves
/// the middle-game score (from White's side) towards the piece's owner by at
/// least 300: its material and table value (at least 485) outweighs the
/// changes it can make to development (at most 14) and mobility (at most 120);
/// it changes no Knight structure or king safety and only adds to its own
/// side's centre control.
pub proof fn law_middle_game_score_of_a_piece(cells: Seq<Cell>, sq: int, c: Color, k: PieceKind)
    requires
        cells.len() == 64,
        0 <= sq < 64,
        cells[sq] is None,
        k != PieceKind::Emperor,
        k != PieceKind::Knight,
    ensures
        c == Color::White ==> middle_game_score(cells.update(sq, Some((c, k)))) >= middle_game_score(cells) + 300,
        c == Color::Black ==> middle_game_score(cells.update(sq, Some((c, k)))) <= middle_game_score(cells) - 300,
{
    let x = Some((c, k));
    let after = cells.update(sq, x);
    law_material_of_a_piece(cells, sq, c, k);
    let i = k.spec_index();
    let ts = if c == Color::White {
        sq
    } else {
        sq_of(file_of(sq), 7 - rank_of(sq))
    };
    assert(0 <= ts < 64);
    assert(MG@[i] + PST_MG@[i]@[ts] >= 485) by {
        assert(MG@ == [10_000i32, 900, 800, 500, 600, 100]@);
        assert(forall|kk: int, t: int| 0 <= kk < 6 && 0 <= t < 64 ==> #[trigger] PST_MG@[kk]@[t] >= if kk == 0 {
            -30int
        } else if kk == 1 || kk == 2 {
            -20int
        } else if kk == 3 {
            -15int
        } else if kk == 4 {
            -5int
        } else {
            0int
        }) by {}
    }
    lemma_knights_unchanged(cells, sq, x, Color::White, 64);
    lemma_knights_unchanged(cells, sq, x, Color::Black, 64);
    lemma_development_change(cells, sq, c, k, Color::White, 8);
    lemma_development_change(cells, sq, c, k, Color::Black, 8);
    lemma_king_from_unchanged(cells, sq, x, Color::White, 0);
    lemma_king_from_unchanged(cells, sq, x, Color::Black, 0);
    assert forall|col: Color| #[trigger] king_safety_penalty(after, col) == king_safety_penalty(cells, col) by {
        lemma_king_from_unchanged(cells, sq, x, col, 0);
        if let Some(ks) = king_square(cells, col) {
            let f = file_of(ks);
            let r = rank_of(ks);
            let fw = crate::pieces::forward(col);
            lemma_shield_at_unchanged(cells, sq, x, col, f - 1, r + fw, 30);
            lemma_shield_at_unchanged(cells, sq, x, col, f, r + fw, 30);
            lemma_shield_at_unchanged(cells, sq, x, col, f + 1, r + fw, 30);
            lemma_shield_at_unchanged(cells, sq, x, col, f - 1, r + 2 * fw, 20);
            lemma_shield_at_unchanged(cells, sq, x, col, f, r + 2 * fw, 20);
            lemma_shield_at_unchanged(cells, sq, x, col, f + 1, r + 2 * fw, 20);
            assert(shield(after, col, ks) == shield(cells, col, ks));
        }
    }
    assert(king_safety_penalty(after, Color::White) == king_safety_penalty(cells, Color::White));
    assert(king_safety_penalty(after, Color::Black) == king_safety_penalty(cells, Color::Black));
    let cw = centre_sum(after, Color::White) - centre_sum(cells, Color::White);
    let cb = centre_sum(after, Color::Black) - centre_sum(cells, Color::Black);
    if c == Color::White {
        assert(0 <= cw <= 12 && cb == 0);
    } else {
        assert(0 <= cb <= 12 && cw == 0);
    }
    assert(0 <= mobility_bonus(cells, Color::White) <= 60 && 0 <= mobility_bonus(after, Color::White) <= 60);
    assert(0 <= mobility_bonus(cells, Color::Black) <= 60 && 0 <= mobility_bonus(after, Color::Black) <= 60);
}

} // verus!
