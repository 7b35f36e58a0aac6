use chess_lib::{
    BoardHistory, BoardPiece, Move, Piece, PieceUpdate, Pieces, Pos, PreviousMove, Side,
};

fn p(x: i8, y: i8) -> Pos {
    Pos { x, y }
}

fn piece(kind: Piece, side: Side) -> BoardPiece {
    BoardPiece { kind, side }
}

const HOME: [Piece; 8] = [
    Piece::Rook,
    Piece::Knight,
    Piece::Bishop,
    Piece::Queen,
    Piece::King,
    Piece::Bishop,
    Piece::Knight,
    Piece::Rook,
];

/// The initial position, rank by rank from a1.
fn initial() -> Vec<(Pos, BoardPiece)> {
    let mut out = Vec::new();
    for x in 0..8 {
        out.push((p(x, 0), piece(HOME[x as usize], Side::White)));
    }
    for x in 0..8 {
        out.push((p(x, 1), piece(Piece::Pawn, Side::White)));
    }
    for x in 0..8 {
        out.push((p(x, 6), piece(Piece::Pawn, Side::Black)));
    }
    for x in 0..8 {
        out.push((p(x, 7), piece(HOME[x as usize], Side::Black)));
    }
    out
}

#[test]
fn the_initial_position() {
    let pieces = Pieces::default();
    assert_eq!(pieces.iter(), initial());
    assert_eq!(Pieces::default_board(), initial());
    assert_eq!(pieces.iter().len(), 32);
    assert_eq!(pieces.at(&p(4, 0)), Some(&piece(Piece::King, Side::White)));
    assert_eq!(pieces.at(&p(3, 0)), Some(&piece(Piece::Queen, Side::White)));
    assert_eq!(pieces.at(&p(3, 7)), Some(&piece(Piece::Queen, Side::Black)));
    assert_eq!(pieces.at(&p(4, 7)), Some(&piece(Piece::King, Side::Black)));
    assert_eq!(pieces.at(&p(0, 7)), Some(&piece(Piece::Rook, Side::Black)));
    assert_eq!(pieces.at(&p(6, 0)), Some(&piece(Piece::Knight, Side::White)));
    assert_eq!(pieces.at(&p(5, 6)), Some(&piece(Piece::Pawn, Side::Black)));
    for y in 2..6 {
        for x in 0..8 {
            assert_eq!(pieces.at(&p(x, y)), None);
        }
    }
    assert_eq!(pieces.at(&p(8, 0)), None);
    assert_eq!(pieces.at(&p(0, -1)), None);
}

#[test]
fn the_pieces_of_a_side() {
    let pieces = Pieces::default();
    let white: Vec<(Pos, BoardPiece)> = initial().into_iter().take(16).collect();
    let black: Vec<(Pos, BoardPiece)> = initial().into_iter().skip(16).collect();
    assert_eq!(pieces.of(Side::White), white);
    assert_eq!(pieces.of(Side::Black), black);
}

#[test]
fn taking_and_moving() {
    let mut pieces = Pieces::default();
    let mut events = pieces.events();
    assert!(events.is_empty());

    assert_eq!(pieces.take(&p(4, 1)), Some(piece(Piece::Pawn, Side::White)));
    assert_eq!(pieces.take(&p(4, 1)), None);
    assert_eq!(pieces.take(&p(4, 9)), None);
    assert_eq!(pieces.at(&p(4, 1)), None);
    assert_eq!(pieces.iter().len(), 31);
    events = pieces.events();
    assert_eq!(events, vec![PieceUpdate::Update(p(4, 1), None)]);

    // A move onto an occupied square hands back what stood there.
    let taken = pieces.move_piece(Move::new(p(3, 0), p(3, 6)));
    assert_eq!(taken, Some(piece(Piece::Pawn, Side::Black)));
    assert_eq!(pieces.at(&p(3, 0)), None);
    assert_eq!(pieces.at(&p(3, 6)), Some(&piece(Piece::Queen, Side::White)));
    assert_eq!(pieces.move_piece(Move::new(p(3, 6), p(3, 3))), None);
    assert_eq!(pieces.iter().len(), 30);
    events = pieces.events();
    assert_eq!(
        events,
        vec![
            PieceUpdate::Update(p(3, 0), None),
            PieceUpdate::Update(p(3, 6), Some(piece(Piece::Queen, Side::White))),
            PieceUpdate::Update(p(3, 6), None),
            PieceUpdate::Update(p(3, 3), Some(piece(Piece::Queen, Side::White))),
        ]
    );
    assert!(pieces.events().is_empty());
}

#[test]
fn changing_in_place() {
    let mut pieces = Pieces::default();
    assert!(pieces.modify(&p(0, 1), Piece::Queen));
    assert_eq!(pieces.at(&p(0, 1)), Some(&piece(Piece::Queen, Side::White)));
    assert!(pieces.modify(&p(0, 6), Piece::Knight));
    assert_eq!(pieces.at(&p(0, 6)), Some(&piece(Piece::Knight, Side::Black)));
    assert!(!pieces.modify(&p(0, 3), Piece::Queen));
    assert!(!pieces.modify(&p(0, 8), Piece::Queen));
    assert_eq!(pieces.at(&p(0, 3)), None);
    assert_eq!(
        pieces.events(),
        vec![
            PieceUpdate::Modify(p(0, 1), Piece::Queen),
            PieceUpdate::Modify(p(0, 6), Piece::Knight),
        ]
    );

    match pieces.at_mut(&p(1, 1)) {
        Some(found) => {
            assert_eq!(*found, piece(Piece::Pawn, Side::White));
            found.kind = Piece::Bishop;
            found.side = Side::Black;
        },
        None => panic!("b2 is occupied"),
    }
    assert_eq!(pieces.at(&p(1, 1)), Some(&piece(Piece::Bishop, Side::Black)));
    assert!(pieces.at_mut(&p(1, 2)).is_none());
    assert!(pieces.at_mut(&p(-1, 2)).is_none());
    assert!(pieces.events().is_empty());
    assert_eq!(pieces.iter().len(), 32);
}

#[test]
fn as_if_a_move_were_made() {
    let pieces = Pieces::default();
    // The queen takes the pawn on d7: one piece less, the queen stands there.
    let mov = Move::new(p(3, 0), p(3, 6));
    let seen = pieces.iter_with_move(&mov);
    let mut expected = initial();
    expected.retain(|(pos, _)| *pos != p(3, 0));
    for entry in expected.iter_mut() {
        if entry.0 == p(3, 6) {
            entry.1 = piece(Piece::Queen, Side::White);
        }
    }
    assert_eq!(seen, expected);
    assert_eq!(seen.len(), 31);
    // The position itself is as it was.
    assert_eq!(pieces.iter(), initial());

    // A move to an empty square keeps every piece.
    let seen = pieces.iter_with_move(&Move::new(p(4, 1), p(4, 3)));
    assert_eq!(seen.len(), 32);
    assert!(seen.contains(&(p(4, 3), piece(Piece::Pawn, Side::White))));
    assert!(!seen.iter().any(|(pos, _)| *pos == p(4, 1)));
    assert_eq!(pieces.at(&p(4, 3)), None);
}

#[test]
fn clearing_and_filling() {
    let mut pieces = Pieces::default();
    pieces.move_piece(Move::new(p(4, 1), p(4, 3)));
    pieces.events();

    pieces.clear();
    assert!(pieces.iter().is_empty());
    let removed = pieces.events();
    assert_eq!(removed.len(), 32);
    assert_eq!(removed[0], PieceUpdate::Update(p(0, 0), None));
    assert!(removed.contains(&PieceUpdate::Update(p(4, 3), None)));
    assert!(!removed.contains(&PieceUpdate::Update(p(4, 1), None)));
    assert_eq!(removed[31], PieceUpdate::Update(p(7, 7), None));

    pieces.fill();
    assert_eq!(pieces.iter(), initial());
    let placed = pieces.events();
    let expected: Vec<PieceUpdate> =
        initial().into_iter().map(|(pos, piece)| PieceUpdate::Update(pos, Some(piece))).collect();
    assert_eq!(placed, expected);

    // Filling puts the initial pieces over whatever stands on their squares and leaves the rest.
    pieces.move_piece(Move::new(p(4, 1), p(4, 3)));
    pieces.move_piece(Move::new(p(3, 7), p(3, 1)));
    pieces.fill();
    assert_eq!(pieces.at(&p(4, 1)), Some(&piece(Piece::Pawn, Side::White)));
    assert_eq!(pieces.at(&p(4, 3)), Some(&piece(Piece::Pawn, Side::White)));
    assert_eq!(pieces.at(&p(3, 1)), Some(&piece(Piece::Pawn, Side::White)));
    assert_eq!(pieces.at(&p(3, 7)), Some(&piece(Piece::Queen, Side::Black)));
    assert_eq!(pieces.iter().len(), 33);
    pieces.events();

    pieces.reset();
    assert_eq!(pieces.iter(), initial());
    assert_eq!(pieces.events().len(), 33 + 32);
}

#[test]
fn attacks_in_a_position() {
    let pieces = Pieces::default();
    // The third rank is threatened by nobody: it is empty, so no pawn threatens it, and the
    // knights threaten only a3, c3, f3 and h3.
    for x in 0..8 {
        let by_knight = x == 0 || x == 2 || x == 5 || x == 7;
        assert_eq!(pieces.attacked(Side::White, p(x, 2)), by_knight);
        assert_eq!(pieces.attacked(Side::Black, p(x, 5)), by_knight);
        assert!(!pieces.attacked(Side::Black, p(x, 2)));
    }
    // Every square of the second rank is covered by a piece behind it.
    for x in 0..8 {
        assert!(pieces.attacked(Side::White, p(x, 1)));
        assert!(pieces.attacked(Side::Black, p(x, 6)));
    }
    // The corners are covered by nobody, the squares beside them by the rooks.
    assert!(!pieces.attacked(Side::White, p(0, 0)));
    assert!(pieces.attacked(Side::White, p(1, 0)));
    assert!(!pieces.attacked(Side::White, p(0, -1)));
    assert!(!pieces.in_check(Side::White));
    assert!(!pieces.in_check(Side::Black));

    // With the pawn on e2 gone and the black queen on e4, the white king is in check.
    let mut pieces = Pieces::default();
    pieces.take(&p(4, 1));
    pieces.move_piece(Move::new(p(3, 7), p(4, 3)));
    assert!(pieces.attacked(Side::Black, p(4, 0)));
    assert!(pieces.in_check(Side::White));
    assert!(!pieces.in_check(Side::Black));
    // A piece in between lifts the check.
    pieces.move_piece(Move::new(p(5, 0), p(4, 1)));
    assert!(!pieces.in_check(Side::White));
    assert!(pieces.attacked(Side::Black, p(4, 1)));
    assert!(!pieces.attacked(Side::Black, p(4, 0)));
}

#[test]
fn the_log_of_moves() {
    let mut history = BoardHistory::default();
    assert_eq!(history.len(), 0);
    assert_eq!(history.of(p(4, 1)), vec![p(4, 1)]);
    assert!(history.taken(Side::White).is_empty());

    let pawn = piece(Piece::Pawn, Side::Black);
    let knight = piece(Piece::Knight, Side::White);
    let queen = piece(Piece::Queen, Side::Black);
    history.add(Move::new(p(4, 1), p(4, 3)), None);
    history.add(Move::new(p(3, 6), p(3, 4)), None);
    history.add(Move::new(p(4, 3), p(3, 4)), Some(pawn));
    history.add(Move::new(p(3, 7), p(3, 4)), Some(piece(Piece::Pawn, Side::White)));
    history.add(Move::new(p(1, 0), p(2, 2)), None);
    history.add(Move::new(p(3, 4), p(2, 2)), Some(knight));
    history.add(Move::new(p(1, 1), p(2, 2)), Some(queen));
    assert_eq!(history.len(), 7);

    assert_eq!(history.taken(Side::Black), vec![pawn, queen]);
    assert_eq!(history.taken(Side::White), vec![piece(Piece::Pawn, Side::White), knight]);

    // The pawn from b2 stands on c3; before it the queen and the knight stood there.
    assert_eq!(history.of(p(2, 2)), vec![p(1, 1), p(2, 2)]);
    // Nothing has moved to e2, e4 or b1 since they were left.
    assert_eq!(history.of(p(4, 1)), vec![p(4, 1)]);
    assert_eq!(history.of(p(1, 0)), vec![p(1, 0)]);
    // The last piece to arrive on d5 was the queen from d8.
    assert_eq!(history.of(p(3, 4)), vec![p(3, 7), p(3, 4)]);
    // The last piece to arrive on e4 was the pawn from e2.
    assert_eq!(history.of(p(4, 3)), vec![p(4, 1), p(4, 3)]);

    let mut history = BoardHistory::default();
    history.add(Move::new(p(6, 0), p(5, 2)), None);
    history.add(Move::new(p(5, 2), p(4, 4)), None);
    history.add(Move::new(p(4, 4), p(5, 2)), None);
    assert_eq!(history.of(p(5, 2)), vec![p(6, 0), p(5, 2), p(4, 4), p(5, 2)]);
    assert_eq!(history.of(p(4, 4)), vec![p(6, 0), p(5, 2), p(4, 4)]);
    assert_eq!(history.of(p(6, 0)), vec![p(6, 0)]);
    history.reset();
    assert_eq!(history.len(), 0);
    assert_eq!(history.of(p(5, 2)), vec![p(5, 2)]);

    let entry = PreviousMove { mov: Move::new(p(0, 0), p(0, 1)), taken: None };
    assert_eq!(entry.mov.to, p(0, 1));
    assert_eq!(entry.taken, None);
}
