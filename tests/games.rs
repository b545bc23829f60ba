use chessbot::board::Board;
use chessbot::coords::{Location, MoveParseError};
use chessbot::movegen::Move;
use chessbot::piece::{Rank, Team};

fn play_all(moves: &str) -> Board {
    let mut board = Board::new();
    for next_move in moves.split_whitespace() {
        board = Board::move_piece(&board, next_move.to_string()).unwrap();
    }
    board
}

#[test]
fn game_create_chess_move() {
    let board = Board::new();
    let mv = Move::new(Location::new(1, 5), Location::new(3, 5), None, 0).unwrap();
    assert!(!Board::is_own_king_checked(&board, &mv));
}

#[test]
fn game_create_chess_board() {
    let mut board = Board::new();
    for _n in 0..5 {
        let next_move = Board::find_next_move(&board, 0).unwrap();
        board = Board::move_piece(&board, next_move).unwrap();
    }
    assert_eq!(board.next_to_move, Team::Black);
}

#[test]
fn parse_fen() {
    let fen_string = "rnbqkbnr/pppppppp/8/8/8/8/PPPPPPPP/RNBQKBNR w KQkq - 0 1";
    let fen_split = fen_string.split_whitespace().collect::<Vec<&str>>();
    let (_fen_pieces, _next, _castling_ability, _en_passant_target, _half_move_clock, _move_counter) =
        match &fen_split[..] {
            &[fen_pieces, next, castling_ability, en_passant_target, half_move_clock, move_counter, ..] => (
                fen_pieces,
                next,
                castling_ability,
                en_passant_target,
                half_move_clock,
                move_counter,
            ),
            _ => unreachable!(),
        };
}

#[test]
fn create_possible_checkmate_situation() {
    let board = play_all("");
    assert_eq!(board.next_to_move, Team::White);
    // An empty move text is refused rather than read out of range.
    assert_eq!(Location::str_to_coords("".to_string()), Err(MoveParseError::WrongLength));
    assert!(Board::move_piece(&board, "".to_string()).is_err());
}

#[test]
fn create_alpha_beta_situation() {
    let board = play_all("e2e4 e7e6 d2d4 f8c5 d4c5 c7c6 c1g5 d8g5 g1f3 g5c5 b2b4 c5b4 d1d2");
    let (c1, r1, c2, r2) = Location::str_to_coords("b4e4".to_string()).unwrap();
    let next_move = Move::new(
        Location::new(r1 as isize, c1 as isize),
        Location::new(r2 as isize, c2 as isize),
        Some(Rank::Pawn),
        1,
    )
    .unwrap();
    let result = Board::alphabeta(
        board.clone(),
        next_move,
        5,
        isize::MIN,
        isize::MAX,
        board.next_to_move == Team::White,
    );
    assert!(result.abs() <= 99 * 6);
    let after = Board::move_piece(&board, next_move.to_algebraic()).unwrap();
    assert_eq!(after.next_to_move, Team::White);
}

#[test]
fn create_queen_trade_situation() {
    let board = play_all("e2e4 e7e6 d2d4 f8c5 d4c5 c7c6 c1g5 d8g5 g1f3 g5c5 b2b4 c5b4 d1d2");
    let next_move = Board::find_next_move(&board, 1).unwrap();
    let after = Board::move_piece(&board, next_move).unwrap();
    assert_eq!(after.next_to_move, Team::White);
}

#[test]
fn create_rook_trade_situation() {
    let moves = "e2e4 b7b6 d2d4 g8h6 b1c3 g7g6 g1f3 d7d6 f1b5 c7c6 b5c6 b8c6 c1h6 c8b7 h6f8 h7h5 f3g5 h8f8 g5h7 f8h8 h7f6 e7f6 e4e5 h5h4 e5d6 c6a5 d6d7 e8d7 d4d5 b7c6 d5c6 d7e8 c6c7 d8d7 c7c8q d7c8 e1g1 a5c6 d1e1 e8f8 e1e4 c8b8 e4c6 b8c8 c6c8 a8c8 a1e1 f6f5 e1e2 f5f4 f1e1 h8h7 e2e8";
    let mut board = Board::new();
    for next_move in moves.split_whitespace() {
        board = match Board::move_piece(&board, next_move.to_string()) {
            Ok(b) => b,
            Err(e) => {
                // A promotion suffix is not part of the notation: promotion is
                // always to a queen, so the four-character move is played.
                assert_eq!(e, MoveParseError::WrongLength);
                Board::move_piece(&board, next_move[..4].to_string()).unwrap()
            }
        };
    }
    let next_move = Board::find_next_move(&board, 0).unwrap();
    let after = Board::move_piece(&board, next_move).unwrap();
    assert_eq!(after.next_to_move, Team::White);
}

#[test]
fn game_orig_create_chess_move() {
    let board = Board::new();
    let mv = Move::new(Location::new(1, 5), Location::new(3, 5), None, 0).unwrap();
    assert!(!Board::is_own_king_checked(&board, &mv));
}

#[test]
fn game_orig_create_chess_board() {
    let mut board = Board::new();
    for _n in 0..120 {
        for _side in 0..2 {
            match Board::find_next_move(&board, 2) {
                Some(next_move) => board = Board::move_piece(&board, next_move).unwrap(),
                None => return,
            }
        }
    }
}
