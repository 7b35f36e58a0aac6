use chess_lib::{
    BishopStep, Board, BoardPiece, Castling, DoubleMove, EnPassant, KingMove, KingTarget,
    KnightStep, Move, PawnTake, Piece, PieceStep, Pos, QueenStep, RookStep, Side, SingleMove,
    Step, Turn,
};

fn p(x: i8, y: i8) -> Pos {
    Pos { x, y }
}

#[test]
fn sides() {
    assert_eq!(Side::White.other(), Side::Black);
    assert_eq!(Side::Black.other(), Side::White);
    assert_eq!(Side::White.origin(), 0);
    assert_eq!(Side::Black.origin(), 7);
    assert_eq!(Side::White.forward(), 1);
    assert_eq!(Side::Black.forward(), -1);
    assert_eq!(Side::White.offset(1), 1);
    assert_eq!(Side::Black.offset(1), 6);
    assert_eq!(Side::White.offset(7), 7);
    assert_eq!(Side::Black.offset(7), 0);
    assert_eq!(Side::White.offset(-3), -3);
    assert_eq!(Side::Black.offset(-3), 10);
    assert_eq!(Side::sides(), [Side::White, Side::Black]);
    assert_eq!(Side::default(), Side::White);
}

#[test]
fn vectors() {
    assert_eq!(Pos::directions(), [p(1, 0), p(-1, 0), p(0, 1), p(0, -1)]);
    assert_eq!(Pos::diagonals(), [p(1, 1), p(-1, -1), p(-1, 1), p(1, -1)]);
    assert_eq!(p(3, 5).max(), 5);
    assert_eq!(p(5, 3).max(), 5);
    assert_eq!(p(-2, -7).max(), -2);
    assert_eq!(p(-2, 7).abs(), p(2, 7));
    assert_eq!(p(2, -7).abs(), p(2, 7));
    assert_eq!(p(1, 2) + p(3, -5), p(4, -3));
    assert_eq!(p(1, 2) - p(3, -5), p(-2, 7));
    assert_eq!(p(2, 3) * p(4, -5), p(8, -15));
    assert_eq!(p(2, -3) * -1, p(-2, 3));
    assert_eq!(p(2, -3) * 3, p(6, -9));
    assert_eq!(Pos::default(), p(0, 0));
    assert!(p(0, 0).is_on_board());
    assert!(p(7, 7).is_on_board());
    assert!(!p(8, 0).is_on_board());
    assert!(!p(0, -1).is_on_board());
    assert!(BoardPiece::on(p(3, 4)));
    assert!(!BoardPiece::on(p(3, 8)));
    assert_eq!(Move::new(p(1, 2), p(3, 4)), Move { from: p(1, 2), to: p(3, 4) });
}

#[test]
fn turns() {
    let mut turn = Turn::default();
    assert_eq!(turn, Turn { side: Side::White, no: 0 });
    turn.increment();
    assert_eq!(turn, Turn { side: Side::Black, no: 0 });
    turn.increment();
    assert_eq!(turn, Turn { side: Side::White, no: 1 });
    turn.increment();
    assert_eq!(turn, Turn { side: Side::Black, no: 1 });
    turn.increment();
    assert_eq!(turn, Turn { side: Side::White, no: 2 });
}

#[test]
fn glyphs() {
    assert_eq!(Piece::Pawn.symbol(Side::White), '♟');
    assert_eq!(Piece::Rook.symbol(Side::White), '♜');
    assert_eq!(Piece::Knight.symbol(Side::White), '♞');
    assert_eq!(Piece::Bishop.symbol(Side::White), '♝');
    assert_eq!(Piece::Queen.symbol(Side::White), '♛');
    assert_eq!(Piece::King.symbol(Side::White), '♚');
    assert_eq!(Piece::Pawn.symbol(Side::Black), '♙');
    assert_eq!(Piece::Rook.symbol(Side::Black), '♖');
    assert_eq!(Piece::Knight.symbol(Side::Black), '♘');
    assert_eq!(Piece::Bishop.symbol(Side::Black), '♗');
    assert_eq!(Piece::Queen.symbol(Side::Black), '♕');
    assert_eq!(Piece::King.symbol(Side::Black), '♔');
    let king = BoardPiece { kind: Piece::King, side: Side::Black };
    assert_eq!(king.symbol(), '♔');
    assert!(king.is_king(Side::Black));
    assert!(!king.is_king(Side::White));
    assert!(!BoardPiece { kind: Piece::Queen, side: Side::Black }.is_king(Side::Black));
}

#[test]
fn rules_of_the_kinds() {
    assert_eq!(Piece::Pawn.targets(), vec![Step::PawnTake]);
    assert_eq!(Piece::Rook.targets(), vec![Step::Rook]);
    assert_eq!(Piece::Knight.targets(), vec![Step::Knight]);
    assert_eq!(Piece::Bishop.targets(), vec![Step::Bishop]);
    assert_eq!(Piece::Queen.targets(), vec![Step::Queen]);
    assert_eq!(Piece::King.targets(), vec![Step::KingTarget]);
    assert_eq!(
        Piece::Pawn.moves(),
        vec![Step::SingleMove, Step::DoubleMove, Step::PawnTake, Step::EnPassant]
    );
    assert_eq!(Piece::Rook.moves(), vec![Step::Rook]);
    assert_eq!(Piece::Knight.moves(), vec![Step::Knight]);
    assert_eq!(Piece::Bishop.moves(), vec![Step::Bishop]);
    assert_eq!(Piece::Queen.moves(), vec![Step::Queen]);
    assert_eq!(Piece::King.moves(), vec![Step::KingMove, Step::Castling]);
}

#[test]
fn vectors_of_the_rules() {
    let straight = vec![p(0, 1), p(1, 0), p(0, -1), p(-1, 0)];
    let diagonal = vec![p(1, 1), p(1, -1), p(-1, -1), p(-1, 1)];
    let both: Vec<Pos> = straight.iter().chain(diagonal.iter()).copied().collect();
    assert_eq!(RookStep.directions(), straight);
    assert_eq!(BishopStep.directions(), diagonal);
    assert_eq!(QueenStep.directions(), both);
    assert_eq!(KingTarget.directions(), both);
    assert_eq!(KingMove.directions(), both);
    assert_eq!(
        KnightStep.directions(),
        vec![p(1, 2), p(2, 1), p(2, -1), p(1, -2), p(-1, -2), p(-2, -1), p(-2, 1), p(-1, 2)]
    );
    assert_eq!(SingleMove.directions(), vec![p(0, 1)]);
    assert_eq!(DoubleMove.directions(), vec![p(0, 2)]);
    assert_eq!(PawnTake.directions(), vec![p(-1, 1), p(1, 1)]);
    assert_eq!(EnPassant.directions(), vec![p(-1, 1), p(1, 1)]);
    assert_eq!(Castling.directions(), vec![p(-3, 0), p(-2, 0), p(2, 0)]);
    assert!(!RookStep.once());
    assert!(!BishopStep.once());
    assert!(!QueenStep.once());
    assert!(KnightStep.once());
    assert!(KingTarget.once());
    assert!(KingMove.once());
    assert!(Castling.once());
    assert!(SingleMove.once());
    assert!(DoubleMove.once());
    assert!(PawnTake.once());
    assert!(EnPassant.once());
    for step in [
        Step::SingleMove,
        Step::DoubleMove,
        Step::PawnTake,
        Step::EnPassant,
        Step::Rook,
        Step::Bishop,
        Step::Queen,
        Step::Knight,
        Step::KingTarget,
        Step::KingMove,
        Step::Castling,
    ] {
        assert_eq!(step.directions(), step.vectors());
        assert_eq!(step.once(), step.single());
    }
    assert_eq!(Step::Queen.vectors(), both);
    assert!(!Step::Queen.single());
    assert!(Step::Knight.single());
}

#[test]
fn conditions_of_the_rules() {
    let board = Board::default();
    let white = Side::White;
    // Pawns: the squares ahead of e2 are empty, the diagonals hold nothing to take.
    assert!(SingleMove.condition(&board, Move::new(p(4, 1), p(4, 2)), white));
    assert!(DoubleMove.condition(&board, Move::new(p(4, 1), p(4, 3)), white));
    assert!(!DoubleMove.condition(&board, Move::new(p(4, 2), p(4, 4)), white));
    assert!(DoubleMove.condition(&board, Move::new(p(4, 6), p(4, 4)), Side::Black));
    assert!(!PawnTake.condition(&board, Move::new(p(4, 1), p(5, 2)), white));
    assert!(PawnTake.condition(&board, Move::new(p(4, 5), p(5, 6)), white));
    assert!(!PawnTake.condition(&board, Move::new(p(4, 5), p(5, 6)), Side::Black));
    assert!(!PawnTake.condition(&board, Move::new(p(4, 0), p(5, 1)), white));
    assert!(!SingleMove.condition(&board, Move::new(p(4, 5), p(4, 6)), white));
    assert!(!EnPassant.condition(&board, Move::new(p(4, 4), p(5, 5)), white));
    // A move that leaves the board meets no condition.
    assert!(!SingleMove.condition(&board, Move::new(p(4, 7), p(4, 8)), white));
    assert!(!KnightStep.condition(&board, Move::new(p(1, 0), p(0, -2)), white));
    assert!(KnightStep.condition(&board, Move::new(p(1, 0), p(2, 2)), white));
    assert!(RookStep.condition(&board, Move::new(p(0, 0), p(0, 5)), white));
    assert!(!QueenStep.condition(&board, Move::new(p(-1, 0), p(0, 0)), white));
    assert!(KingTarget.condition(&board, Move::new(p(4, 0), p(4, 1)), white));
    // No square of the own half is threatened when the game begins.
    assert!(KingMove.condition(&board, Move::new(p(4, 0), p(4, 1)), white));
    assert!(KingMove::safe(&board, p(4, 2), white));
    // The sixth rank is threatened by nothing either: a pawn threatens occupied squares only.
    assert!(KingMove::safe(&board, p(4, 5), white));
    assert!(!KingMove::safe(&board, p(4, 6), white));
    assert!(!KingMove.condition(&board, Move::new(p(4, 5), p(4, 6)), white));
    // Castling: the squares between king and rook are occupied.
    assert!(!Castling.condition(&board, Move::new(p(4, 0), p(6, 0)), white));
    assert!(!Castling.condition(&board, Move::new(p(4, 0), p(4, 0)), white));
    for step in [Step::SingleMove, Step::KingMove, Step::Castling, Step::Rook] {
        let mov = Move::new(p(4, 1), p(4, 2));
        let expected = match step {
            Step::Castling => false,
            _ => true,
        };
        assert_eq!(step.condition(&board, mov, white), expected);
    }
    assert!(chess_lib::occupied(&board, p(4, 1)));
    assert!(!chess_lib::occupied(&board, p(4, 2)));
    assert!(!chess_lib::occupied(&board, p(4, 8)));
}
