use chessbot::board::Board;
use chessbot::coords::{Location, MoveParseError};
use chessbot::movegen::{Direction, Move};
use chessbot::piece::{Piece, Rank, Team};

fn play_all(moves: &str) -> Board {
    let mut board = Board::new();
    for next_move in moves.split_whitespace() {
        board = Board::move_piece(&board, next_move.to_string()).unwrap();
    }
    board
}

fn count_pieces(b: &Board) -> usize {
    let mut n = 0;
    for r in 0..8 {
        for c in 0..8 {
            if b.piece_at(r, c).is_some() {
                n += 1;
            }
        }
    }
    n
}

fn mv(from: &str, to: &str) -> Move {
    let text = format!("{}{}", from, to);
    let (fc, fr, tc, tr) = Location::str_to_coords(text).unwrap();
    Move::new(
        Location::new(fr as isize, fc as isize),
        Location::new(tr as isize, tc as isize),
        None,
        0,
    )
    .unwrap()
}

#[test]
fn initial_position_layout() {
    let b = Board::new();
    let back = [
        Rank::Rook,
        Rank::Knight,
        Rank::Bishop,
        Rank::Queen,
        Rank::King,
        Rank::Bishop,
        Rank::Knight,
        Rank::Rook,
    ];
    for c in 0..8 {
        assert_eq!(b.piece_at(0, c), Some(Piece::new(Team::White, back[c])));
        assert_eq!(b.piece_at(1, c), Some(Piece::new(Team::White, Rank::Pawn)));
        assert_eq!(b.piece_at(6, c), Some(Piece::new(Team::Black, Rank::Pawn)));
        assert_eq!(b.piece_at(7, c), Some(Piece::new(Team::Black, back[c])));
        for r in 2..6 {
            assert_eq!(b.piece_at(r, c), None);
        }
    }
    assert_eq!(b.next_to_move, Team::White);
    assert_eq!(b.squares[3][5].location, Location::new(3, 5));
}

#[test]
fn e2e4_moves_pawn_and_passes_turn() {
    let b = Board::new();
    let after = Board::move_piece(&b, "e2e4".to_string()).unwrap();
    assert_eq!(after.piece_at(1, 4), None);
    assert_eq!(after.piece_at(3, 4), Some(Piece::new(Team::White, Rank::Pawn)));
    assert_eq!(after.next_to_move, Team::Black);
    assert_eq!(count_pieces(&after), 32);
    // The board the move was played on is unchanged.
    assert_eq!(b.piece_at(1, 4), Some(Piece::new(Team::White, Rank::Pawn)));
    assert_eq!(b.next_to_move, Team::White);
}

#[test]
fn knight_b1_has_two_destinations() {
    let b = Board::new();
    let legal = Board::find_legal_moves(&b);
    let mut dests: Vec<String> = legal
        .iter()
        .filter(|m| m.from == Location::new(0, 1))
        .map(|m| m.to_algebraic()[2..].to_string())
        .collect();
    dests.sort();
    assert_eq!(dests, vec!["a3".to_string(), "c3".to_string()]);
    assert_eq!(legal.len(), 20);
}

#[test]
fn material_count_under_moves() {
    let b = play_all("e2e4 d7d5");
    assert_eq!(count_pieces(&b), 32);
    let quiet = Board::move_piece(&b, "g1f3".to_string()).unwrap();
    assert_eq!(count_pieces(&quiet), 32);
    let capture = Board::move_piece(&b, "e4d5".to_string()).unwrap();
    assert_eq!(count_pieces(&capture), 31);
    assert_eq!(capture.piece_at(4, 3), Some(Piece::new(Team::White, Rank::Pawn)));
}

#[test]
fn exposing_own_king_is_rejected() {
    // The white queen on h5 attacks the black king along h5-g6-f7-e8.
    let b = play_all("e2e4 f7f6 d1h5");
    assert_eq!(b.next_to_move, Team::Black);
    assert!(Board::is_own_king_checked(&b, &mv("a7", "a6")));
    assert!(!Board::is_own_king_checked(&b, &mv("g7", "g6")));
    let legal = Board::find_legal_moves(&b);
    assert_eq!(legal.len(), 1);
    assert_eq!(legal[0].to_algebraic(), "g7g6");
}

#[test]
fn tie_prefers_capture() {
    let quiet = Move { value: 4, ..mv("a2", "a3") };
    let capture = Move { captured: Some(Rank::Pawn), value: 4, ..mv("e4", "d5") };
    let worse = Move { captured: Some(Rank::Queen), value: 2, ..mv("d1", "d8") };
    let scored = vec![quiet, capture, worse];
    for pick in 0..3 {
        assert_eq!(Board::select_move(&scored, Team::White, pick), Some(capture));
    }
    let scored = vec![capture, quiet];
    assert_eq!(Board::select_move(&scored, Team::White, 0), Some(capture));
}

#[test]
fn tie_between_captures_by_victim() {
    let takes_pawn = Move { captured: Some(Rank::Pawn), value: -3, ..mv("e5", "d4") };
    let takes_rook = Move { captured: Some(Rank::Rook), value: -3, ..mv("e5", "f4") };
    let scored = vec![takes_pawn, takes_rook];
    // Black prefers the most negative valuation: the rook.
    assert_eq!(Board::select_move(&scored, Team::Black, 0), Some(takes_rook));
    let takes_knight = Move { captured: Some(Rank::Knight), value: 7, ..mv("e4", "d5") };
    let takes_queen = Move { captured: Some(Rank::Queen), value: 7, ..mv("e4", "f5") };
    let scored = vec![takes_queen, takes_knight];
    assert_eq!(Board::select_move(&scored, Team::White, 1), Some(takes_queen));
}

#[test]
fn tie_without_capture_uses_pick() {
    let a = Move { value: 0, ..mv("a2", "a3") };
    let b = Move { value: 5, ..mv("b2", "b3") };
    let c = Move { value: 0, ..mv("c2", "c3") };
    let scored = vec![a, b, c];
    // Black wants the lowest score: a and c tie.
    assert_eq!(Board::select_move(&scored, Team::Black, 0), Some(a));
    assert_eq!(Board::select_move(&scored, Team::Black, 1), Some(c));
    assert_eq!(Board::select_move(&scored, Team::Black, 2), Some(a));
    assert_eq!(Board::select_move(&scored, Team::White, 7), Some(b));
    assert_eq!(Board::select_move(&Vec::new(), Team::White, 0), None);
}

#[test]
fn depth_zero_is_best_immediate_capture() {
    let b = play_all("e2e4 d7d5 a2a3");
    // After a7a6 White may take on d5 for a pawn.
    let node = mv("a7", "a6");
    assert_eq!(Board::alphabeta(b.clone(), node, 0, isize::MIN, isize::MAX, false), 1);
    // From the start no reply captures anything.
    let start = Board::new();
    assert_eq!(Board::alphabeta(start, mv("e2", "e4"), 0, isize::MIN, isize::MAX, true), 0);
}

#[test]
fn search_one_level_adds_capture_base() {
    // After a7a6 White's best capture is worth 1; one level deeper Black
    // (maximizing over its own negative values) scores 0 at best.
    let b = play_all("e2e4 d7d5 a2a3");
    let score = Board::alphabeta(b, mv("a7", "a6"), 1, isize::MIN, isize::MAX, false);
    assert_eq!(score, 1);
}

#[test]
fn move_text_errors() {
    let b = Board::new();
    assert_eq!(Board::move_piece(&b, "e2e".to_string()).err(), Some(MoveParseError::WrongLength));
    assert_eq!(Board::move_piece(&b, "e2e4q".to_string()).err(), Some(MoveParseError::WrongLength));
    assert_eq!(Board::move_piece(&b, "e2e9".to_string()).err(), Some(MoveParseError::BadSquare));
    assert_eq!(Board::move_piece(&b, "i2e4".to_string()).err(), Some(MoveParseError::BadSquare));
    assert_eq!(Board::move_piece(&b, "2e4e".to_string()).err(), Some(MoveParseError::BadSquare));
    assert_eq!(Location::str_to_coords("h8a1".to_string()), Ok((7, 7, 0, 0)));
}

#[test]
fn promotion_to_queen() {
    let mut b = Board::new();
    b.set_piece(6, 0, Some(Piece::new(Team::White, Rank::Pawn)));
    b.set_piece(7, 0, None);
    let after = Board::move_piece(&b, "a7a8".to_string()).unwrap();
    assert_eq!(after.piece_at(7, 0), Some(Piece::new(Team::White, Rank::Queen)));
    assert_eq!(after.piece_at(6, 0), None);
}

#[test]
fn castling_moves_rook() {
    let mut b = Board::new();
    b.set_piece(0, 5, None);
    b.set_piece(0, 6, None);
    let after = Board::move_piece(&b, "e1g1".to_string()).unwrap();
    assert_eq!(after.piece_at(0, 6), Some(Piece::new(Team::White, Rank::King)));
    assert_eq!(after.piece_at(0, 5), Some(Piece::new(Team::White, Rank::Rook)));
    assert_eq!(after.piece_at(0, 7), None);
    assert_eq!(after.piece_at(0, 4), None);
}

#[test]
fn empty_origin_only_passes_turn() {
    let b = Board::new();
    let after = Board::move_piece(&b, "e4e5".to_string()).unwrap();
    assert_eq!(after.next_to_move, Team::Black);
    assert_eq!(count_pieces(&after), 32);
}

#[test]
fn checkmated_side_has_no_move() {
    let b = play_all("f2f3 e7e5 g2g4 d8h4");
    assert!(Board::find_legal_moves(&b).is_empty());
    assert_eq!(Board::find_next_move(&b, 1), None);
    assert_eq!(Board::choose_next_move(b, Vec::new(), 0), None);
}

#[test]
fn single_legal_move_is_chosen() {
    let b = play_all("e2e4 f7f6 d1h5");
    assert_eq!(Board::find_next_move(&b, 1), Some("g7g6".to_string()));
}

#[test]
fn location_validity_flag() {
    assert!(Location::new(0, 0).valid_location);
    assert!(Location::new(7, 7).valid_location);
    assert!(!Location::new(8, 0).valid_location);
    assert!(!Location::new(3, -1).valid_location);
    assert!(Move::new(Location::new(1, 1), Location::new(8, 1), None, 0).is_none());
}

#[test]
fn move_text_round() {
    assert_eq!(mv("e2", "e4").to_algebraic(), "e2e4");
    assert_eq!(Location::coords_to_str(0, 0, 7, 7), "a1h8");
    let off = Move {
        from: Location::new(-1, 0),
        to: Location::new(0, 9),
        captured: None,
        value: 0,
    };
    assert_eq!(off.to_algebraic(), "a991");
    assert_eq!(Location::algebraic_to_index(&'c'), 2);
    assert_eq!(Location::algebraic_to_index(&'8'), 7);
    assert_eq!(Location::algebraic_to_index(&'z'), 99);
}

#[test]
fn valuations() {
    assert_eq!(Rank::King.valuation(Team::White), 99);
    assert_eq!(Rank::Queen.valuation(Team::Black), -9);
    assert_eq!(Rank::Rook.valuation(Team::White), 5);
    assert_eq!(Rank::Knight.valuation(Team::Black), -3);
    assert_eq!(Rank::Bishop.valuation(Team::White), 3);
    assert_eq!(Rank::Pawn.valuation(Team::Black), -1);
    assert_eq!(Team::White.other(), Team::Black);
}

#[test]
fn navigate_pawn_and_knight() {
    let b = Board::new();
    let forward = b.navigate(Direction::N, Location::new(1, 4));
    let texts: Vec<String> = forward.iter().map(|m| m.unwrap().to_algebraic()).collect();
    assert_eq!(texts, vec!["e2e3".to_string(), "e2e4".to_string()]);
    assert!(b.navigate(Direction::NE, Location::new(1, 4)).is_empty());
    let jumps = b.navigate(Direction::KNIGHT, Location::new(0, 6));
    let texts: Vec<String> = jumps.iter().map(|m| m.unwrap().to_algebraic()).collect();
    assert_eq!(texts, vec!["g1h3".to_string(), "g1f3".to_string()]);
    // A capture records the victim and its value for the side to move.
    let b = play_all("e2e4 d7d5");
    let takes = b.navigate(Direction::NW, Location::new(3, 4));
    assert_eq!(takes.len(), 1);
    let m = takes[0].unwrap();
    assert_eq!((m.captured, m.value), (Some(Rank::Pawn), 1));
}

#[test]
fn generation_for_empty_or_enemy_square_is_empty() {
    let b = Board::new();
    assert!(Board::generate_all_possible_moves_for_piece(&b, &b.squares[4][4]).is_empty());
    assert!(Board::generate_all_possible_moves_for_piece(&b, &b.squares[6][4]).is_empty());
    assert_eq!(Board::generate_all_possible_moves_for_piece(&b, &b.squares[0][1]).len(), 2);
    assert_eq!(Board::find_valid_moves(&b).len(), 20);
}

#[test]
fn equal_scores_take_the_queen() {
    // Every White move scores 0 at depth 0; of the captures the queen on g5
    // is worth most.
    let b = play_all("e2e4 e7e5 g1f3 d8g5");
    assert_eq!(Board::find_next_move(&b, 0), Some("f3g5".to_string()));
}
