use std::collections::{BTreeSet, HashMap};

use chess_lib::{Board, BoardPiece, Move, Piece, Pos, Side};

type Squares = HashMap<(i8, i8), BoardPiece>;

const STRAIGHT: [(i8, i8); 4] = [(0, 1), (1, 0), (0, -1), (-1, 0)];
const DIAGONAL: [(i8, i8); 4] = [(1, 1), (1, -1), (-1, -1), (-1, 1)];
const JUMPS: [(i8, i8); 8] = [(1, 2), (2, 1), (2, -1), (1, -2), (-1, -2), (-2, -1), (-2, 1), (-1, 2)];

fn on(square: (i8, i8)) -> bool {
    (0..8).contains(&square.0) && (0..8).contains(&square.1)
}

fn ahead(side: Side) -> i8 {
    if side == Side::White { 1 } else { -1 }
}

fn home(side: Side) -> i8 {
    if side == Side::White { 0 } else { 7 }
}

fn slide(squares: &Squares, from: (i8, i8), vectors: &[(i8, i8)], out: &mut BTreeSet<(i8, i8)>) {
    for (dx, dy) in vectors {
        let mut at = (from.0 + dx, from.1 + dy);
        while on(at) {
            out.insert(at);
            if squares.contains_key(&at) {
                break;
            }
            at = (at.0 + dx, at.1 + dy);
        }
    }
}

fn hop(from: (i8, i8), vectors: &[(i8, i8)], out: &mut BTreeSet<(i8, i8)>) {
    for (dx, dy) in vectors {
        let at = (from.0 + dx, from.1 + dy);
        if on(at) {
            out.insert(at);
        }
    }
}

/// The attack set, written down from the rules of the game.
fn attacks(squares: &Squares, from: (i8, i8), piece: BoardPiece) -> BTreeSet<(i8, i8)> {
    let mut out = BTreeSet::new();
    if !on(from) {
        return out;
    }
    match piece.kind {
        Piece::Pawn => {
            for dx in [-1, 1] {
                let at = (from.0 + dx, from.1 + ahead(piece.side));
                let enemy = squares.get(&at).map(|there| there.side != piece.side);
                if on(at) && enemy == Some(true) {
                    out.insert(at);
                }
            }
        },
        Piece::Knight => hop(from, &JUMPS, &mut out),
        Piece::King => {
            hop(from, &STRAIGHT, &mut out);
            hop(from, &DIAGONAL, &mut out);
        },
        Piece::Rook => slide(squares, from, &STRAIGHT, &mut out),
        Piece::Bishop => slide(squares, from, &DIAGONAL, &mut out),
        Piece::Queen => {
            slide(squares, from, &STRAIGHT, &mut out);
            slide(squares, from, &DIAGONAL, &mut out);
        },
    }
    out
}

fn attacked(squares: &Squares, by: Side, target: (i8, i8)) -> bool {
    squares
        .iter()
        .any(|(from, piece)| piece.side == by && attacks(squares, *from, *piece).contains(&target))
}

fn in_check(squares: &Squares, side: Side) -> bool {
    squares.iter().any(|(at, piece)| {
        piece.kind == Piece::King && piece.side == side && attacked(squares, side.other(), *at)
    })
}

/// The legal-move set, written down from the rules of the game. `moved` tells how many
/// squares the lineage of a square holds.
fn moves(
    squares: &Squares,
    moved: &dyn Fn((i8, i8)) -> usize,
    from: (i8, i8),
    piece: BoardPiece,
) -> BTreeSet<(i8, i8)> {
    let side = piece.side;
    let f = ahead(side);
    let mut led = BTreeSet::new();
    if !on(from) {
        return led;
    }
    match piece.kind {
        Piece::Pawn => {
            let one = (from.0, from.1 + f);
            let two = (from.0, from.1 + 2 * f);
            if on(one) && !squares.contains_key(&one) {
                led.insert(one);
            }
            if from.1 == home(side) + f
                && on(two)
                && !squares.contains_key(&one)
                && !squares.contains_key(&two)
            {
                led.insert(two);
            }
            for dx in [-1, 1] {
                let to = (from.0 + dx, from.1 + f);
                let behind = (from.0 + dx, from.1);
                if !on(to) {
                    continue;
                }
                if let Some(there) = squares.get(&to) {
                    if there.side != side {
                        led.insert(to);
                    }
                } else if let Some(passed) = squares.get(&behind) {
                    if passed.kind == Piece::Pawn && passed.side != side && moved(behind) == 2 {
                        led.insert(to);
                    }
                }
            }
        },
        Piece::King => {
            let mut near = BTreeSet::new();
            hop(from, &STRAIGHT, &mut near);
            hop(from, &DIAGONAL, &mut near);
            for to in near {
                if !attacked(squares, side.other(), to) {
                    led.insert(to);
                }
            }
            for offset in [-3 * f, -2 * f, 2 * f] {
                let to = (from.0 + offset, from.1);
                let step = if offset > 0 { 1 } else { -1 };
                let corner = (if offset > 0 { 7 } else { 0 }, home(side));
                let rook_there =
                    squares.get(&corner).map(|rook| rook.kind == Piece::Rook).unwrap_or(false);
                let way_free = (1..=offset.abs()).all(|i| {
                    let crossed = (from.0 + step * i, from.1);
                    !squares.contains_key(&crossed) && !attacked(squares, side.other(), crossed)
                });
                if on(to)
                    && moved(from) == 1
                    && rook_there
                    && moved(corner) == 1
                    && !attacked(squares, side.other(), from)
                    && way_free
                {
                    led.insert(to);
                }
            }
        },
        _ => led = attacks(squares, from, piece),
    }
    led.into_iter()
        .filter(|to| match squares.get(to) {
            Some(there) => there.side != side && there.kind != Piece::King,
            None => true,
        })
        .filter(|to| {
            let mut after = squares.clone();
            after.remove(&from);
            after.insert(*to, piece);
            !in_check(&after, side)
        })
        .collect()
}

struct Dice(u64);

impl Dice {
    fn roll(&mut self, sides: u64) -> u64 {
        self.0 = self.0.wrapping_mul(6364136223846793005).wrapping_add(1442695040888963407);
        (self.0 >> 33) % sides
    }
}

const KINDS: [Piece; 6] =
    [Piece::Pawn, Piece::Rook, Piece::Knight, Piece::Bishop, Piece::Queen, Piece::King];

/// A board on which the pieces of the initial position were taken away, moved about and
/// changed as the dice fell, with some moves of pawns put on record.
fn shuffled(dice: &mut Dice) -> Board {
    let mut board = Board::default();
    for (pos, _) in Board::default().pieces.iter() {
        match dice.roll(4) {
            0 => {
                board.pieces.take(&pos);
            },
            1 => {
                let to = Pos { x: dice.roll(8) as i8, y: dice.roll(8) as i8 };
                if board.pieces.at(&to).is_none() && board.pieces.at(&pos).is_some() {
                    board.pieces.move_piece(Move::new(pos, to));
                }
            },
            2 => {
                if let Some(piece) = board.pieces.at_mut(&pos) {
                    if piece.kind != Piece::King {
                        piece.kind = KINDS[dice.roll(5) as usize];
                    }
                    if dice.roll(2) == 0 {
                        piece.side = piece.side.other();
                    }
                }
            },
            _ => {},
        }
    }
    for (pos, piece) in board.pieces.iter() {
        if piece.kind == Piece::Pawn && dice.roll(3) == 0 {
            let from = Pos { x: pos.x, y: pos.y - 2 * ahead(piece.side) };
            board.history.add(Move::new(from, pos), None);
        }
    }
    board
}

fn as_set(squares: Vec<Pos>) -> BTreeSet<(i8, i8)> {
    let set: BTreeSet<(i8, i8)> = squares.iter().map(|pos| (pos.x, pos.y)).collect();
    assert_eq!(set.len(), squares.len(), "a square is listed twice");
    set
}

#[test]
fn the_library_agrees_with_the_rules_written_down() {
    let mut dice = Dice(2024);
    let mut castlings = 0;
    let mut passings = 0;
    for round in 0..200 {
        let board = shuffled(&mut dice);
        let squares: Squares =
            board.pieces.iter().into_iter().map(|(pos, piece)| ((pos.x, pos.y), piece)).collect();
        let moved = |at: (i8, i8)| board.history.of(Pos { x: at.0, y: at.1 }).len();
        for side in Side::sides() {
            assert_eq!(board.pieces.in_check(side), in_check(&squares, side), "round {round}");
            let mut all = BTreeSet::new();
            for (pos, piece) in board.pieces.of(side) {
                let from = (pos.x, pos.y);
                assert_eq!(
                    as_set(piece.targets(&board, pos)),
                    attacks(&squares, from, piece),
                    "round {round}, targets of {piece:?} on {pos:?}"
                );
                let expected = moves(&squares, &moved, from, piece);
                assert_eq!(
                    as_set(piece.moves(&board, pos)),
                    expected,
                    "round {round}, moves of {piece:?} on {pos:?}"
                );
                for to in expected {
                    let mov = Move::new(pos, Pos { x: to.0, y: to.1 });
                    all.insert((from, to));
                    let rule = piece.can_move(&board, mov);
                    assert!(rule.is_some());
                    if rule == Some(chess_lib::Step::Castling) {
                        castlings += 1;
                    }
                    if rule == Some(chess_lib::Step::EnPassant) {
                        passings += 1;
                    }
                }
            }
            let listed = board.check(side).map(|list| {
                let set: BTreeSet<((i8, i8), (i8, i8))> = list
                    .iter()
                    .map(|mov| ((mov.from.x, mov.from.y), (mov.to.x, mov.to.y)))
                    .collect();
                assert_eq!(set.len(), list.len(), "a move is listed twice");
                set
            });
            assert_eq!(listed, if in_check(&squares, side) { Some(all) } else { None });
        }
        for x in 0..8 {
            for y in 0..8 {
                for side in Side::sides() {
                    assert_eq!(
                        board.pieces.attacked(side, Pos { x, y }),
                        attacked(&squares, side, (x, y))
                    );
                }
            }
        }
    }
    // The dice have brought up the rare moves too.
    assert!(castlings > 0);
    assert!(passings > 0);
}
