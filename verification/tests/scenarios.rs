use chess_lib::{Board, BoardPiece, Move, MoveError, Piece, Pos, Side};

fn sq(text: &str) -> Pos {
    Pos::parse(text).unwrap()
}

fn mv(text: &str) -> Move {
    Move::parse(text).unwrap()
}

fn play(board: &mut Board, moves: &[&str]) -> Vec<MoveError> {
    let mut errors = Vec::new();
    for text in moves {
        if let Err(e) = board.move_piece(mv(text)) {
            errors.push(e);
        }
    }
    errors
}

#[test]
fn opening_double_push() {
    let mut board = Board::default();
    assert_eq!(board.move_piece(mv("e2 e4")), Ok(()));
    assert!(board.pieces.at(&sq("e2")).is_none());
    assert_eq!(
        board.pieces.at(&sq("e4")).copied(),
        Some(BoardPiece { kind: Piece::Pawn, side: Side::White })
    );
    assert_eq!(board.state.turn.side, Side::Black);
}

#[test]
fn rook_blocked_by_own_pawn() {
    let mut board = Board::default();
    assert_eq!(board.move_piece(mv("a1 a2")), Err(MoveError::InvalidMove));
    assert_eq!(board.move_piece(mv("a1 a3")), Err(MoveError::InvalidMove));
}

#[test]
fn fools_mate_is_checkmate() {
    let mut board = Board::default();
    let errors = play(&mut board, &["f2 f3", "e7 e5", "g2 g4", "d8 h4"]);
    assert!(errors.is_empty());
    assert_eq!(board.state.turn.side, Side::White);
    assert_eq!(board.state.check().map(|moves| moves.len()), Some(0));
    assert_eq!(board.move_piece(mv("a2 a3")), Err(MoveError::Checkmate));
    assert_eq!(board.move_piece(mv("e1 f2")), Err(MoveError::Checkmate));
}

#[test]
fn castle() {
    let mut board = Board::default();
    let errors = play(
        &mut board,
        &["e2 e4", "e7 e5", "g1 f3", "b8 c6", "f1 c4", "f8 c5", "e1 g1"],
    );
    assert!(errors.is_empty());
    assert_eq!(
        board.pieces.at(&sq("g1")).copied(),
        Some(BoardPiece { kind: Piece::King, side: Side::White })
    );
    assert_eq!(
        board.pieces.at(&sq("f1")).copied(),
        Some(BoardPiece { kind: Piece::Rook, side: Side::White })
    );
    assert!(board.pieces.at(&sq("h1")).is_none());
    assert!(board.pieces.at(&sq("e1")).is_none());

    let mut board = Board::default();
    let errors = play(
        &mut board,
        &["e2 e4", "e7 e5", "g1 f3", "b8 c6", "f1 c4", "f8 c5", "e1 e2", "d7 d6", "e2 e1", "d6 d5", "e1 g1"],
    );
    assert!(errors.len() == 1);
    assert_eq!(errors[0], MoveError::InvalidMove);
}

#[test]
fn en_passant() {
    let mut board = Board::default();
    let errors = play(&mut board, &["e2 e4", "a7 a6", "e4 e5", "d7 d5", "e5 d6"]);
    assert!(errors.is_empty());
    assert!(board.pieces.at(&sq("d5")).is_none());
    assert!(board.pieces.at(&sq("e5")).is_none());
    assert_eq!(
        board.pieces.at(&sq("d6")).copied(),
        Some(BoardPiece { kind: Piece::Pawn, side: Side::White })
    );
}

#[test]
fn check() {
    let mut board = Board::default();
    let errors = play(&mut board, &["e2 e4", "f7 f6", "d1 h5"]);
    assert!(errors.is_empty());
    assert!(board.check(Side::Black).is_some());
    assert!(board.check(Side::White).is_none());
    let replies = board.state.check().unwrap();
    assert_eq!(replies.len(), 1);
    assert_eq!(replies[0], mv("g7 g6"));
}
