use chess_lib::util::parse::is_whitespace;
use chess_lib::{Command, Move, ParseMoveError, ParsePosError, ParsePositions, Pos};

#[test]
fn every_square_parses() {
    for (x, file) in "abcdefgh".chars().enumerate() {
        for (y, rank) in "12345678".chars().enumerate() {
            let text = format!("{file}{rank}");
            let expected = Pos { x: x as i8, y: y as i8 };
            assert_eq!(Pos::parse(&text), Ok(expected));
            assert_eq!(text.parse::<Pos>(), Ok(expected));
        }
    }
}

#[test]
fn square_errors_are_told_apart() {
    assert_eq!(Pos::parse(""), Err(ParsePosError::Length));
    assert_eq!(Pos::parse("e"), Err(ParsePosError::Length));
    assert_eq!(Pos::parse("e22"), Err(ParsePosError::Length));
    assert_eq!(Pos::parse(" e2"), Err(ParsePosError::Length));
    assert_eq!(Pos::parse("i2"), Err(ParsePosError::Char));
    assert_eq!(Pos::parse("`2"), Err(ParsePosError::Char));
    assert_eq!(Pos::parse("A2"), Err(ParsePosError::Char));
    assert_eq!(Pos::parse("22"), Err(ParsePosError::Char));
    assert_eq!(Pos::parse("e0"), Err(ParsePosError::Digit));
    assert_eq!(Pos::parse("e9"), Err(ParsePosError::Digit));
    assert_eq!(Pos::parse("ee"), Err(ParsePosError::Digit));
    assert_eq!(Pos::parse("e\u{FF12}"), Err(ParsePosError::Digit));
    // The letter is looked at before the digit.
    assert_eq!(Pos::parse("z9"), Err(ParsePosError::Char));
}

#[test]
fn length_counts_characters() {
    // One character of two bytes is too short, two characters of three bytes are not too long.
    assert_eq!(Pos::parse("\u{E9}"), Err(ParsePosError::Length));
    assert_eq!(Pos::parse("\u{E9}2"), Err(ParsePosError::Char));
    assert_eq!(Pos::parse("e\u{E9}"), Err(ParsePosError::Digit));
}

#[test]
fn moves_parse() {
    let expected = Move { from: Pos { x: 4, y: 1 }, to: Pos { x: 4, y: 3 } };
    assert_eq!(Move::parse("e2 e4"), Ok(expected));
    assert_eq!(Move::parse("  e2 \t e4 \n"), Ok(expected));
    assert_eq!(Move::parse("e2\u{3000}e4"), Ok(expected));
    assert_eq!(Move::parse("e2\u{A0}e4"), Ok(expected));
    assert_eq!("e2 e4".parse::<Move>(), Ok(expected));
    assert_eq!(Move::parse("a1 h8"), Ok(Move::new(Pos { x: 0, y: 0 }, Pos { x: 7, y: 7 })));
}

#[test]
fn move_errors_are_told_apart() {
    assert_eq!(Move::parse(""), Err(ParseMoveError::Length));
    assert_eq!(Move::parse("   "), Err(ParseMoveError::Length));
    assert_eq!(Move::parse("e2"), Err(ParseMoveError::Length));
    assert_eq!(Move::parse("e2 e4 e5"), Err(ParseMoveError::Length));
    assert_eq!(Move::parse("x2 e4"), Err(ParseMoveError::Pos(true, ParsePosError::Char)));
    assert_eq!(Move::parse("e2 e9"), Err(ParseMoveError::Pos(false, ParsePosError::Digit)));
    assert_eq!(Move::parse("e2e4"), Err(ParseMoveError::Pos(true, ParsePosError::Length)));
    assert_eq!(Move::parse("e2 e"), Err(ParseMoveError::Pos(false, ParsePosError::Length)));
    // A malformed square is reported before a missing or surplus word.
    assert_eq!(Move::parse("x2"), Err(ParseMoveError::Pos(true, ParsePosError::Char)));
    assert_eq!(Move::parse("e2 e9 e5"), Err(ParseMoveError::Pos(false, ParsePosError::Digit)));
}

#[test]
fn lines_are_squares_or_moves() {
    assert_eq!(ParsePositions::parse("e2"), ParsePositions::Pos(Pos { x: 4, y: 1 }));
    assert_eq!(ParsePositions::parse(" h8\n"), ParsePositions::Pos(Pos { x: 7, y: 7 }));
    assert_eq!(
        ParsePositions::parse("e2 e4"),
        ParsePositions::Move(Move { from: Pos { x: 4, y: 1 }, to: Pos { x: 4, y: 3 } })
    );
    assert_eq!(ParsePositions::parse(""), ParsePositions::Error(ParsePosError::Length));
    assert_eq!(ParsePositions::parse("e9"), ParsePositions::Error(ParsePosError::Digit));
    assert_eq!(ParsePositions::parse("e2 x4"), ParsePositions::Error(ParsePosError::Char));
    assert_eq!(ParsePositions::parse("e2 e4 e5"), ParsePositions::Error(ParsePosError::Length));
}

#[test]
fn control_words_stand_alone() {
    assert_eq!(Command::parse("exit"), Command::Exit);
    assert_eq!(Command::parse("  exit \n"), Command::Exit);
    assert_eq!(Command::parse("print\n"), Command::Print);
    assert_eq!(Command::parse("taken\n"), Command::Taken);
    assert_eq!(Command::parse("reset\n"), Command::Reset);
    assert_eq!(Command::parse("help\n"), Command::Help);
    assert_eq!(Command::parse("exit now"), Command::Error(ParsePosError::Length));
    assert_eq!(Command::parse("Exit"), Command::Error(ParsePosError::Length));
    assert_eq!(Command::parse("\n"), Command::Error(ParsePosError::Length));
    assert_eq!(Command::parse("e2\n"), Command::Inspect(Pos { x: 4, y: 1 }));
    assert_eq!(
        Command::parse("e2 e4\n"),
        Command::Move(Move { from: Pos { x: 4, y: 1 }, to: Pos { x: 4, y: 3 } })
    );
    assert_eq!(Command::parse("e2 e4 e5\n"), Command::Error(ParsePosError::Length));
}

#[test]
fn white_space_is_what_the_standard_library_calls_so() {
    for code in 0..=0x10FFFFu32 {
        if let Some(c) = char::from_u32(code) {
            assert_eq!(is_whitespace(c), c.is_whitespace(), "U+{code:04X}");
        }
    }
}

#[test]
fn words_are_what_the_standard_library_splits() {
    for line in ["e2 e4", "  e2\te4\n", "e2\u{2003}e4", "e2\u{85}e4\u{2029}", "e2\u{200B}e4"] {
        let words: Vec<&str> = line.split_whitespace().collect();
        match ParsePositions::parse(line) {
            ParsePositions::Move(mov) => {
                assert_eq!(words.len(), 2);
                assert_eq!(Pos::parse(words[0]), Ok(mov.from));
                assert_eq!(Pos::parse(words[1]), Ok(mov.to));
            },
            other => {
                assert_eq!(words.len(), 1);
                assert_eq!(other, ParsePositions::Error(ParsePosError::Length));
            },
        }
    }
}

#[test]
fn squares_are_written_as_they_are_read() {
    for x in 0..8 {
        for y in 0..8 {
            let pos = Pos { x, y };
            let (file, rank) = pos.to_chars();
            assert_eq!(Pos::parse(&format!("{file}{rank}")), Ok(pos));
        }
    }
    assert_eq!(Pos { x: 4, y: 1 }.to_chars(), ('e', '2'));
    assert_eq!(Pos { x: 0, y: 7 }.to_chars(), ('a', '8'));
}

#[test]
fn errors_have_messages() {
    assert_eq!(ParsePosError::Char.message(), "Invalid character");
    assert_eq!(ParsePosError::Digit.message(), "Invalid digit");
    assert_eq!(ParsePosError::Length.message(), "Invalid length");
}

#[test]
fn the_standard_trait_reads_as_the_library_does() {
    for text in ["e2", "", "e", "i2", "e9", "e2 e4", " e2  e4 ", "e2 e4 e5", "x2 e4", "e2 e0"] {
        assert_eq!(text.parse::<Pos>(), Pos::parse(text), "{text:?}");
        assert_eq!(text.parse::<Move>(), Move::parse(text), "{text:?}");
    }
    assert_eq!("i2".parse::<Pos>(), Err(ParsePosError::Char));
    assert_eq!("e2 e0".parse::<Move>(), Err(ParseMoveError::Pos(false, ParsePosError::Digit)));
}
