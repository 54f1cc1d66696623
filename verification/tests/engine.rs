use antarian_chess::board::{coord_to_index, index_to_coord};
use antarian_chess::evaluation::{
    centre_control, development, evaluate_phases, king_safety, knight_structure, phase_material,
};
use antarian_chess::{compute_zobrist, Board, Color, GameResult, Move, PieceKind, ZOBRIST_SIDE};

fn board_with(pieces: &[(usize, Color, PieceKind)], turn: Color) -> Board {
    let mut b = Board::empty();
    for &(sq, c, k) in pieces {
        b.set(sq, Some((c, k)));
    }
    b.turn = turn;
    b.zobrist = compute_zobrist(b.squares(), turn);
    b
}

#[test]
fn initial_position_layout() {
    let b = Board::initial();
    assert_eq!(b.turn, Color::White);
    assert_eq!(b.get(0), Some((Color::White, PieceKind::Dragon)));
    assert_eq!(b.get(1), Some((Color::White, PieceKind::Priest)));
    assert_eq!(b.get(2), Some((Color::White, PieceKind::Paladin)));
    assert_eq!(b.get(3), Some((Color::White, PieceKind::Emperor)));
    assert_eq!(b.get(4), Some((Color::White, PieceKind::Empress)));
    assert_eq!(b.get(8), Some((Color::White, PieceKind::Knight)));
    assert_eq!(b.get(27), None);
    assert_eq!(b.get(52), Some((Color::Black, PieceKind::Knight)));
    assert_eq!(b.get(59), Some((Color::Black, PieceKind::Emperor)));
    assert_eq!(b.zobrist, compute_zobrist(b.squares(), Color::White));
    assert_eq!(b.game_result(), GameResult::Ongoing);
}

#[test]
fn emperor_boxed_in_at_start() {
    let b = Board::initial();
    assert!(b.generate_moves_for(3, false).is_empty());
    assert!(!b.is_in_check(Color::White));
    assert!(!b.is_in_check(Color::Black));
}

#[test]
fn knights_step_one_or_two_from_start() {
    let b = Board::initial();
    let moves = b.generate_moves_for(12, false);
    assert_eq!(moves, vec![Move::new(12, 20, false), Move::new(12, 28, false)]);
}

#[test]
fn counts_match_generated_lists() {
    let b = Board::initial();
    assert_eq!(b.count_captures(Color::White) as usize, b.generate_captures(Color::White).len());
    // The Dragons hop over their own Knights onto the enemy Knights.
    assert_eq!(b.count_captures(Color::White), 2);
    assert_eq!(b.generate_captures(Color::White), vec![Move::new(0, 48, true), Move::new(7, 55, true)]);
    let legal = b.generate_legal_moves(Color::White);
    assert_eq!(b.generate_all_moves(Color::White), legal);
    // Every pseudo-legal move is counted; the legal ones are among them.
    assert!(legal.len() <= b.count_all_moves(Color::White) as usize);
    assert!(!legal.is_empty());
}

#[test]
fn all_moves_leave_out_those_into_check() {
    // The White Emperor on e1 may not step onto the file the Black Empress holds.
    let b = board_with(
        &[(4, Color::White, PieceKind::Emperor), (59, Color::Black, PieceKind::Empress), (63, Color::Black, PieceKind::Emperor)],
        Color::White,
    );
    let all = b.generate_all_moves(Color::White);
    assert!(!all.contains(&Move::new(4, 3, false)));
    assert!(all.contains(&Move::new(4, 5, false)));
    assert_eq!(b.count_all_moves(Color::White), 5);
    assert_eq!(all.len(), 3);
}

#[test]
fn lone_emperor_has_eight_moves() {
    let b = board_with(
        &[(28, Color::White, PieceKind::Emperor), (56, Color::Black, PieceKind::Emperor)],
        Color::White,
    );
    assert_eq!(b.generate_moves_for(28, false).len(), 8);
}

#[test]
fn empress_on_open_board_has_twenty_seven_moves() {
    let b = board_with(
        &[
            (27, Color::White, PieceKind::Empress),
            (8, Color::White, PieceKind::Emperor),
            (47, Color::Black, PieceKind::Emperor),
        ],
        Color::White,
    );
    let moves = b.generate_moves_for(27, false);
    assert_eq!(moves.len(), 27);
    assert!(moves.iter().all(|m| m.from == 27 && !m.capture));
}

#[test]
fn check_along_an_open_file() {
    let b = board_with(
        &[(4, Color::White, PieceKind::Emperor), (60, Color::Black, PieceKind::Empress), (63, Color::Black, PieceKind::Emperor)],
        Color::White,
    );
    assert!(b.is_in_check(Color::White));
    assert!(!b.is_in_check(Color::Black));
    // Every legal move leaves the file or blocks it.
    for m in b.generate_legal_moves(Color::White) {
        let child = b.make_move(&m);
        assert!(!child.is_in_check(Color::White));
    }
}

#[test]
fn checkmate_in_the_corner() {
    // Black Emperor h8, White Emperor g6, White Empress g7 protected.
    let b = board_with(
        &[
            (63, Color::Black, PieceKind::Emperor),
            (46, Color::White, PieceKind::Emperor),
            (54, Color::White, PieceKind::Empress),
        ],
        Color::Black,
    );
    assert!(b.is_in_check(Color::Black));
    assert!(b.generate_legal_moves(Color::Black).is_empty());
    assert_eq!(b.game_result(), GameResult::Checkmate { winner: Color::White });
}

#[test]
fn stalemate_in_the_corner() {
    let b = board_with(
        &[
            (63, Color::Black, PieceKind::Emperor),
            (0, Color::White, PieceKind::Emperor),
            (53, Color::White, PieceKind::Empress),
        ],
        Color::Black,
    );
    assert!(!b.is_in_check(Color::Black));
    assert_eq!(b.game_result(), GameResult::Stalemate);
}

#[test]
fn make_move_keeps_hash_in_step() {
    let b = Board::initial();
    let mv = Move::new(8, 16, false);
    let c = b.make_move(&mv);
    assert_eq!(c.get(8), None);
    assert_eq!(c.get(16), Some((Color::White, PieceKind::Knight)));
    assert_eq!(c.turn, Color::Black);
    assert_eq!(c.zobrist, compute_zobrist(c.squares(), Color::Black));
    assert_ne!(c.zobrist, b.zobrist);
}

#[test]
fn capture_replaces_the_victim() {
    let b = board_with(
        &[
            (27, Color::White, PieceKind::Empress),
            (35, Color::Black, PieceKind::Knight),
            (8, Color::White, PieceKind::Emperor),
            (47, Color::Black, PieceKind::Emperor),
        ],
        Color::White,
    );
    let caps = b.generate_legal_captures(Color::White);
    assert!(caps.contains(&Move::new(27, 35, true)));
    assert!(caps.iter().all(|m| m.capture));
    // The legal captures are the captures among the legal moves, in order.
    let from_legal: Vec<Move> =
        b.generate_legal_moves(Color::White).into_iter().filter(|m| m.capture).collect();
    assert_eq!(caps, from_legal);
    let c = b.make_move(&Move::new(27, 35, true));
    assert_eq!(c.get(35), Some((Color::White, PieceKind::Empress)));
    assert_eq!(c.zobrist, compute_zobrist(c.squares(), Color::Black));
}

#[test]
fn null_move_twice_restores_the_hash() {
    let b = Board::initial();
    let once = b.null_move();
    assert_eq!(once.turn, Color::Black);
    assert_eq!(once.zobrist, b.zobrist ^ ZOBRIST_SIDE);
    let twice = once.null_move();
    assert_eq!(twice.turn, Color::White);
    assert_eq!(twice.zobrist, b.zobrist);
}

#[test]
fn empty_board_hash_is_the_side_key() {
    let b = Board::empty();
    assert_eq!(compute_zobrist(b.squares(), Color::White), 0);
    assert_eq!(compute_zobrist(b.squares(), Color::Black), ZOBRIST_SIDE);
}

#[test]
fn coordinates_round_trip() {
    assert_eq!(index_to_coord(27), (3, 3));
    assert_eq!(index_to_coord(63), (7, 7));
    assert_eq!(coord_to_index(3, 3), Some(27));
    assert_eq!(coord_to_index(8, 0), None);
    assert_eq!(coord_to_index(0, -1), None);
    for sq in 0..64usize {
        let (f, r) = index_to_coord(sq);
        assert_eq!(coord_to_index(f, r), Some(sq));
    }
}

#[test]
fn colours_and_kinds() {
    assert_eq!(Color::White.opposite(), Color::Black);
    assert_eq!(Color::Black.opposite(), Color::White);
    assert_eq!(Color::White.multiplier(), 1);
    assert_eq!(Color::Black.multiplier(), -1);
    assert_eq!(PieceKind::Emperor.value(), 10_000);
    assert_eq!(PieceKind::Knight.value(), 100);
    assert_eq!(PieceKind::Emperor.index(), 0);
    assert_eq!(PieceKind::Knight.index(), 5);
    let null = Move::null();
    assert_eq!((null.from, null.to, null.capture), (0, 0, false));
}

#[test]
fn initial_position_is_balanced() {
    let b = Board::initial();
    assert_eq!(evaluate_phases(&b), (0, 0));
    assert_eq!(phase_material(&b), 24);
}

#[test]
fn evaluation_terms_at_the_start() {
    let b = Board::initial();
    // Six Knights with two neighbours, two with one.
    assert_eq!(knight_structure(&b, Color::White), 6 * 30 + 2 * 15);
    assert_eq!(knight_structure(&b, Color::Black), 6 * 30 + 2 * 15);
    // Empress 14, Priests and Paladins 10 each, Dragons 7 each, eight Knights 8 each.
    assert_eq!(development(&b, Color::White), -(14 + 20 + 20 + 14 + 64));
    assert_eq!(centre_control(&b, Color::White), 0);
    // Three shielding Knights in front of the Emperor, none two ranks ahead.
    assert_eq!(king_safety(&b, Color::White), 120 - 90);
    assert_eq!(king_safety(&b, Color::Black), 120 - 90);
}

#[test]
fn mirrored_positions_score_as_negated() {
    // This board is its own colour mirror.
    let b = board_with(
        &[
            (4, Color::White, PieceKind::Emperor),
            (28, Color::White, PieceKind::Knight),
            (0, Color::White, PieceKind::Dragon),
            (60, Color::Black, PieceKind::Emperor),
            (36, Color::Black, PieceKind::Knight),
            (56, Color::Black, PieceKind::Dragon),
        ],
        Color::White,
    );
    assert_eq!(knight_structure(&b, Color::White), knight_structure(&b, Color::Black));
    assert_eq!(knight_structure(&b, Color::Black), 16);
    assert_eq!(evaluate_phases(&b), (0, 0));
}

#[test]
fn centre_and_advanced_knights() {
    let b = board_with(
        &[
            (27, Color::White, PieceKind::Knight),
            (28, Color::White, PieceKind::Knight),
            (35, Color::Black, PieceKind::Priest),
            (3, Color::White, PieceKind::Emperor),
            (59, Color::Black, PieceKind::Emperor),
        ],
        Color::White,
    );
    assert_eq!(centre_control(&b, Color::White), 24);
    assert_eq!(centre_control(&b, Color::Black), 12);
    // Each Knight: one neighbour (15) and two ranks above home (16).
    assert_eq!(knight_structure(&b, Color::White), 2 * (15 + 16));
    // A bare Emperor on its home rank has no shield.
    assert_eq!(king_safety(&b, Color::White), 120);
}

fn emperor_capturable(b: &Board, color: Color) -> bool {
    let king = (0..64).find(|&sq| b.get(sq) == Some((color, PieceKind::Emperor)));
    match king {
        None => false,
        Some(k) => (0..64).any(|sq| match b.get(sq) {
            Some((c, _)) if c != color => b.generate_moves_for(sq, false).iter().any(|m| m.to as usize == k),
            _ => false,
        }),
    }
}

#[test]
fn check_agrees_with_opponent_moves() {
    let boards = vec![
        Board::initial(),
        // Dragon on the Emperor's file with one of its own pieces between: still check.
        board_with(
            &[(4, Color::White, PieceKind::Emperor), (12, Color::Black, PieceKind::Knight), (60, Color::Black, PieceKind::Dragon), (63, Color::Black, PieceKind::Emperor)],
            Color::White,
        ),
        // Dragon blocked by a piece of the other side: no check.
        board_with(
            &[(4, Color::White, PieceKind::Emperor), (12, Color::White, PieceKind::Knight), (60, Color::Black, PieceKind::Dragon), (63, Color::Black, PieceKind::Emperor)],
            Color::White,
        ),
        // Paladin two squares away, with an empty square between.
        board_with(
            &[(27, Color::White, PieceKind::Emperor), (43, Color::Black, PieceKind::Paladin), (63, Color::Black, PieceKind::Emperor)],
            Color::White,
        ),
        // Knight attacks diagonally forward only.
        board_with(
            &[(27, Color::White, PieceKind::Emperor), (36, Color::Black, PieceKind::Knight), (63, Color::Black, PieceKind::Emperor)],
            Color::White,
        ),
        board_with(
            &[(27, Color::White, PieceKind::Emperor), (18, Color::Black, PieceKind::Knight), (63, Color::Black, PieceKind::Emperor)],
            Color::White,
        ),
        // Priest: a knight jump and a blocked diagonal.
        board_with(
            &[(27, Color::White, PieceKind::Emperor), (44, Color::Black, PieceKind::Priest), (63, Color::Black, PieceKind::Emperor)],
            Color::White,
        ),
        board_with(
            &[(0, Color::White, PieceKind::Emperor), (9, Color::White, PieceKind::Knight), (63, Color::Black, PieceKind::Priest), (56, Color::Black, PieceKind::Emperor)],
            Color::White,
        ),
    ];
    let expected = [false, true, false, true, true, false, true, false];
    for (b, want) in boards.iter().zip(expected.iter()) {
        assert_eq!(b.is_in_check(Color::White), *want);
        assert_eq!(b.is_in_check(Color::White), emperor_capturable(b, Color::White));
        assert_eq!(b.is_in_check(Color::Black), emperor_capturable(b, Color::Black));
    }
}

#[test]
fn generated_moves_never_share_a_target() {
    let boards = vec![
        Board::initial(),
        board_with(
            &[
                (27, Color::White, PieceKind::Empress),
                (28, Color::White, PieceKind::Paladin),
                (35, Color::White, PieceKind::Priest),
                (36, Color::White, PieceKind::Dragon),
                (9, Color::White, PieceKind::Knight),
                (4, Color::White, PieceKind::Emperor),
                (44, Color::Black, PieceKind::Knight),
                (30, Color::Black, PieceKind::Dragon),
                (60, Color::Black, PieceKind::Emperor),
            ],
            Color::White,
        ),
    ];
    for b in &boards {
        for sq in 0..64 {
            for captures_only in [false, true] {
                let moves = b.generate_moves_for(sq, captures_only);
                for i in 0..moves.len() {
                    for j in (i + 1)..moves.len() {
                        assert_ne!(moves[i].to, moves[j].to, "square {sq}");
                    }
                }
            }
        }
    }
}

fn colour_mirrored(b: &Board) -> Board {
    let mut m = Board::empty();
    for sq in 0..64 {
        if let Some((c, k)) = b.get(sq) {
            m.set(sq ^ 56, Some((c.opposite(), k)));
        }
    }
    m.turn = b.turn.opposite();
    m.zobrist = compute_zobrist(m.squares(), m.turn);
    m
}

#[test]
fn mirroring_swaps_the_terms_between_colours() {
    let b = board_with(
        &[
            (3, Color::White, PieceKind::Emperor),
            (4, Color::White, PieceKind::Empress),
            (9, Color::White, PieceKind::Knight),
            (26, Color::White, PieceKind::Knight),
            (27, Color::White, PieceKind::Knight),
            (35, Color::White, PieceKind::Priest),
            (59, Color::Black, PieceKind::Emperor),
            (50, Color::Black, PieceKind::Knight),
            (41, Color::Black, PieceKind::Knight),
            (63, Color::Black, PieceKind::Dragon),
        ],
        Color::White,
    );
    let m = colour_mirrored(&b);
    for c in [Color::White, Color::Black] {
        assert_eq!(knight_structure(&m, c.opposite()), knight_structure(&b, c));
        assert_eq!(development(&m, c.opposite()), development(&b, c));
        assert_eq!(centre_control(&m, c.opposite()), centre_control(&b, c));
    }
    assert_eq!(knight_structure(&b, Color::White), 15 * 2 + 8 * (2 + 2));
}

#[test]
fn mirrored_boards_negate_both_phase_scores() {
    let boards = vec![
        Board::initial(),
        board_with(
            &[
                (3, Color::White, PieceKind::Emperor),
                (4, Color::White, PieceKind::Empress),
                (9, Color::White, PieceKind::Knight),
                (11, Color::White, PieceKind::Knight),
                (26, Color::White, PieceKind::Knight),
                (27, Color::White, PieceKind::Dragon),
                (35, Color::White, PieceKind::Priest),
                (21, Color::White, PieceKind::Paladin),
                (60, Color::Black, PieceKind::Emperor),
                (50, Color::Black, PieceKind::Knight),
                (41, Color::Black, PieceKind::Knight),
                (63, Color::Black, PieceKind::Dragon),
                (44, Color::Black, PieceKind::Paladin),
            ],
            Color::White,
        ),
    ];
    for b in &boards {
        let m = colour_mirrored(b);
        let (mg, eg) = evaluate_phases(b);
        assert_eq!(evaluate_phases(&m), (-mg, -eg));
        assert_eq!(phase_material(&m), phase_material(b));
        for c in [Color::White, Color::Black] {
            assert_eq!(king_safety(&m, c.opposite()), king_safety(b, c));
        }
    }
}
