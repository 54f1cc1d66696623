use std::sync::atomic::{AtomicBool, Ordering};
use std::sync::Arc;

use antarian_chess::move_sort::sort_desc_by_key;
use antarian_chess::search::{
    capture_score, futility_margin, null_move_r, select_result, tt_retrieve_score, tt_store_score,
    Evaluator, MoveHeuristics, SearchThread, MATE_SCORE,
};
use antarian_chess::tt::{zobrist_key, TTEntry, TTFlag, TranspositionTable};
use antarian_chess::{compute_zobrist, Board, Color, Move, PieceKind};

/// Material count from White's side.
struct Material;

impl Evaluator for Material {
    fn evaluate(&self, board: &Board) -> i32 {
        let mut s = 0;
        for sq in 0..64 {
            if let Some((c, k)) = board.get(sq) {
                if k != PieceKind::Emperor {
                    s += k.value() * c.multiplier();
                }
            }
        }
        s
    }
}

fn board_with(pieces: &[(usize, Color, PieceKind)], turn: Color) -> Board {
    let mut b = Board::empty();
    for &(sq, c, k) in pieces {
        b.set(sq, Some((c, k)));
    }
    b.turn = turn;
    b.zobrist = compute_zobrist(b.squares(), turn);
    b
}

#[test]
fn mate_scores_are_stored_relative_to_the_root() {
    assert_eq!(tt_store_score(89_950, 5), 89_955);
    assert_eq!(tt_retrieve_score(89_955, 5), 89_950);
    assert_eq!(tt_store_score(-89_950, 5), -89_955);
    assert_eq!(tt_retrieve_score(-89_955, 5), -89_950);
    assert_eq!(tt_store_score(1_234, 7), 1_234);
    assert_eq!(tt_retrieve_score(1_234, 7), 1_234);
    for score in [-90_000, -89_900, -500, 0, 500, 89_872, 90_000] {
        for ply in [0usize, 1, 17, 127] {
            assert_eq!(tt_retrieve_score(tt_store_score(score, ply), ply), score);
        }
    }
}

#[test]
fn pruning_parameters() {
    assert_eq!(null_move_r(0), 2);
    assert_eq!(null_move_r(6), 3);
    assert_eq!(null_move_r(13), 4);
    assert_eq!(futility_margin(0), 0);
    assert_eq!(futility_margin(1), 100);
    assert_eq!(futility_margin(2), 250);
    assert_eq!(futility_margin(3), 450);
    assert_eq!(futility_margin(9), 700);
}

#[test]
fn capture_ordering_keys() {
    let b = board_with(
        &[
            (27, Color::White, PieceKind::Priest),
            (36, Color::Black, PieceKind::Knight),
            (35, Color::White, PieceKind::Knight),
            (44, Color::Black, PieceKind::Empress),
            (0, Color::White, PieceKind::Emperor),
            (63, Color::Black, PieceKind::Emperor),
        ],
        Color::White,
    );
    // Priest takes Knight: 100 - 650 < 0.
    assert_eq!(capture_score(&b, &Move::new(27, 36, true)), 200_000 - 5_500);
    // Knight takes Empress: 900 - 100 > 0.
    assert_eq!(capture_score(&b, &Move::new(35, 44, true)), 800_000 + 8_000);
    // Equal trade.
    let c = board_with(
        &[
            (35, Color::White, PieceKind::Knight),
            (44, Color::Black, PieceKind::Knight),
            (0, Color::White, PieceKind::Emperor),
            (63, Color::Black, PieceKind::Emperor),
        ],
        Color::White,
    );
    assert_eq!(capture_score(&c, &Move::new(35, 44, true)), 500_000);
}

#[test]
fn killers_and_history_order_quiet_moves() {
    let b = Board::initial();
    let mut t = MoveHeuristics::new();
    let quiet = Move::new(8, 16, false);
    let other = Move::new(9, 17, false);
    assert_eq!(t.move_score(&quiet, &b, 3, None), 0);
    assert_eq!(t.move_score(&quiet, &b, 3, Some(&quiet)), 1_000_000);
    t.store_killer(quiet, 3);
    assert_eq!(t.move_score(&quiet, &b, 3, None), 400_000);
    t.store_killer(other, 3);
    assert_eq!(t.move_score(&other, &b, 3, None), 400_000);
    assert_eq!(t.move_score(&quiet, &b, 3, None), 390_000);
    assert_eq!(t.move_score(&quiet, &b, 4, None), 0);
    let far = Move::new(10, 18, false);
    t.reward_history(far, 3);
    assert_eq!(t.move_score(&far, &b, 5, None), 9);
    t.reward_history(far, 30);
    assert_eq!(t.move_score(&far, &b, 5, None), 409);
}

#[test]
fn stable_sort_keeps_ties_in_order() {
    let a = Move::new(1, 2, false);
    let b = Move::new(3, 4, false);
    let c = Move::new(5, 6, true);
    let d = Move::new(7, 8, false);
    let items = vec![(5, a), (9, b), (5, c), (7, d)];
    let sorted = sort_desc_by_key(&items);
    assert_eq!(sorted, vec![(9, b), (7, d), (5, a), (5, c)]);
    assert!(sort_desc_by_key(&Vec::new()).is_empty());
}

#[test]
fn table_stores_and_forgets() {
    let tt = TranspositionTable::new();
    let b = Board::initial();
    let key = zobrist_key(&b);
    assert_eq!(key, b.zobrist);
    assert!(tt.get(key).is_none());
    let entry = TTEntry { score: 42, depth: 3, flag: TTFlag::Exact, best_move: Some(Move::new(8, 16, false)) };
    tt.store(key, entry);
    let back = tt.get(key).expect("stored entry");
    assert_eq!(back.score, 42);
    assert_eq!(back.depth, 3);
    assert_eq!(back.flag, TTFlag::Exact);
    assert_eq!(back.best_move, Some(Move::new(8, 16, false)));
    tt.clear();
    assert!(tt.get(key).is_none());
}

#[test]
fn thread_results_keep_the_first_deepest() {
    let b = Board::initial();
    let m1 = Move::new(8, 16, false);
    let m2 = Move::new(9, 17, false);
    let m3 = Move::new(10, 18, false);
    let results = vec![None, Some((m1, 10, 3)), Some((m2, 20, 3)), Some((m3, 5, 4)), Some((m1, 7, 2))];
    let r = select_result(&b, &results).expect("a result");
    assert_eq!((r.best_move, r.score, r.depth), (m3, 5, 4));
    let tied = vec![Some((m1, 10, 3)), Some((m2, 20, 3))];
    let r = select_result(&b, &tied).expect("a result");
    assert_eq!((r.best_move, r.score, r.depth), (m1, 10, 3));
}

#[test]
fn no_thread_result_falls_back_to_the_first_legal_move() {
    let b = Board::initial();
    let r = select_result(&b, &vec![None, None]).expect("a legal move");
    assert_eq!(r.best_move, b.generate_legal_moves(Color::White)[0]);
    assert_eq!((r.score, r.depth), (0, 0));
    let mated = board_with(
        &[
            (63, Color::Black, PieceKind::Emperor),
            (46, Color::White, PieceKind::Emperor),
            (54, Color::White, PieceKind::Empress),
        ],
        Color::Black,
    );
    assert!(select_result(&mated, &vec![None]).is_none());
}

#[test]
fn search_finds_mate_in_one() {
    // Black Emperor h8, White Emperor g6, White Empress a7: several Empress
    // moves mate at once.
    let b = board_with(
        &[
            (63, Color::Black, PieceKind::Emperor),
            (46, Color::White, PieceKind::Emperor),
            (48, Color::White, PieceKind::Empress),
        ],
        Color::White,
    );
    let tt = Arc::new(TranspositionTable::new());
    let stop = Arc::new(AtomicBool::new(false));
    let mut thread = SearchThread::new(tt, stop.clone(), Material);
    let (mv, score, depth) = thread.iterative_deepen(&b, 0).expect("a completed iteration");
    assert_eq!(mv.from, 48);
    assert_eq!(score, MATE_SCORE - 1);
    assert_eq!(depth, 1);
    // A forced mate stops every thread.
    assert!(stop.load(Ordering::Relaxed));
    let after = b.make_move(&mv);
    assert!(after.generate_legal_moves(Color::Black).is_empty());
    assert!(after.is_in_check(Color::Black));
}

#[test]
fn a_raised_stop_flag_ends_the_search_at_once() {
    let b = Board::initial();
    let tt = Arc::new(TranspositionTable::new());
    let stop = Arc::new(AtomicBool::new(true));
    let mut thread = SearchThread::new(tt, stop, Material);
    assert!(thread.iterative_deepen(&b, 1).is_none());
}
