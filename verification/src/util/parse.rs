//! Reading squares and moves from text.
//!
//! A square is written as a file letter `a` to `h` followed by a rank digit
//! `1` to `8`. A line holds one square, or two squares separated by white space.

use vstd::prelude::*;
use vstd::string::*;

use crate::util::pos::{pos, Move, Pos};

verus! {

/// Why a text is not a square.
#[derive(Debug, Clone, Copy, PartialEq, Eq, Structural)]
pub enum ParsePosError {
    /// The first character is not a file letter.
    Char,
    /// The second character is not a rank digit.
    Digit,
    /// The text does not have two characters.
    Length,
}

/// Why a text is not a move.
#[derive(Debug, Clone, Copy, PartialEq, Eq, Structural)]
pub enum ParseMoveError {
    /// One of the two squares is malformed; the flag tells whether it is the first.
    Pos(bool, ParsePosError),
    /// The text does not hold exactly two words.
    Length,
}

/// What a line of input asks for.
#[derive(Debug, Clone, Copy, PartialEq, Eq)]
pub enum ParsePositions {
    /// A single square, to be inspected.
    Pos(Pos),
    /// A move to be made.
    Move(Move),
    /// Neither.
    Error(ParsePosError),
}

/// The characters that separate words: those with the Unicode property `White_Space`.
pub open spec fn is_space(c: char) -> bool {
    let u = c as u32;
    ||| 0x09 <= u <= 0x0D
    ||| u == 0x20
    ||| u == 0x85
    ||| u == 0xA0
    ||| u == 0x1680
    ||| 0x2000 <= u <= 0x200A
    ||| u == 0x2028
    ||| u == 0x2029
    ||| u == 0x202F
    ||| u == 0x205F
    ||| u == 0x3000
}

/// The first index from `i` on that holds no white space, or the length of `s`.
pub open spec fn token_start(s: Seq<char>, i: int) -> int
    decreases s.len() - i,
{
    if 0 <= i < s.len() && is_space(s[i]) {
        token_start(s, i + 1)
    } else {
        i
    }
}

/// The first index from `i` on that holds white space, or the length of `s`.
pub open spec fn token_end(s: Seq<char>, i: int) -> int
    decreases s.len() - i,
{
    if 0 <= i < s.len() && !is_space(s[i]) {
        token_end(s, i + 1)
    } else {
        i
    }
}

/// The words of `s` that begin at index `i` or later, in order.
pub open spec fn tokens_from(s: Seq<char>, i: int) -> Seq<Seq<char>>
    decreases s.len() - i,
{
    let a = token_start(s, i);
    if 0 <= i && a < s.len() {
        let b = token_end(s, a);
        proof {
            lemma_token_start(s, i);
            lemma_token_end(s, a);
        }
        seq![s.subrange(a, b)] + tokens_from(s, b)
    } else {
        Seq::empty()
    }
}

/// The words of `s`: its maximal runs of characters that are not white space.
pub open spec fn tokens(s: Seq<char>) -> Seq<Seq<char>> {
    tokens_from(s, 0)
}

/// The square that a word denotes, or the reason why it denotes none.
pub open spec fn parse_pos(s: Seq<char>) -> Result<Pos, ParsePosError> {
    if s.len() != 2 {
        Err(ParsePosError::Length)
    } else if !('a' <= s[0] <= 'h') {
        Err(ParsePosError::Char)
    } else if !('1' <= s[1] <= '8') {
        Err(ParsePosError::Digit)
    } else {
        Ok(pos(s[0] as int - 'a' as int, s[1] as int - '1' as int))
    }
}

/// The move that a line denotes, or the reason why it denotes none.
pub open spec fn parse_move(s: Seq<char>) -> Result<Move, ParseMoveError> {
    let t = tokens(s);
    if t.len() == 0 {
        Err(ParseMoveError::Length)
    } else {
        match parse_pos(t[0]) {
            Err(e) => Err(ParseMoveError::Pos(true, e)),
            Ok(from) => if t.len() == 1 {
                Err(ParseMoveError::Length)
            } else {
                match parse_pos(t[1]) {
                    Err(e) => Err(ParseMoveError::Pos(false, e)),
                    Ok(to) => if t.len() > 2 {
                        Err(ParseMoveError::Length)
                    } else {
                        Ok(Move { from, to })
                    },
                }
            },
        }
    }
}

/// What a line asks for: one word is a square to inspect, two words are a move,
/// and anything else is an error.
pub open spec fn parse_positions(s: Seq<char>) -> ParsePositions {
    let t = tokens(s);
    if t.len() == 0 {
        ParsePositions::Error(ParsePosError::Length)
    } else {
        match parse_pos(t[0]) {
            Err(e) => ParsePositions::Error(e),
            Ok(from) => if t.len() == 1 {
                ParsePositions::Pos(from)
            } else {
                match parse_pos(t[1]) {
                    Err(e) => ParsePositions::Error(e),
                    Ok(to) => if t.len() > 2 {
                        ParsePositions::Error(ParsePosError::Length)
                    } else {
                        ParsePositions::Move(Move { from, to })
                    },
                }
            },
        }
    }
}

/// `token_start` skips white space only and stops before a character that is none.
pub proof fn lemma_token_start(s: Seq<char>, i: int)
    requires
        0 <= i,
    ensures
        i <= token_start(s, i),
        i <= s.len() ==> token_start(s, i) <= s.len(),
        token_start(s, i) < s.len() ==> !is_space(s[token_start(s, i)]),
        forall|k: int| i <= k < token_start(s, i) ==> is_space(#[trigger] s[k]),
    decreases s.len() - i,
{
    if i < s.len() && is_space(s[i]) {
        lemma_token_start(s, i + 1);
    }
}

/// `token_end` passes over a word and stops at white space or at the end.
pub proof fn lemma_token_end(s: Seq<char>, i: int)
    requires
        0 <= i,
    ensures
        i <= token_end(s, i),
        i <= s.len() ==> token_end(s, i) <= s.len(),
        i < s.len() && !is_space(s[i]) ==> i < token_end(s, i),
        token_end(s, i) < s.len() ==> is_space(s[token_end(s, i)]),
        forall|k: int| i <= k < token_end(s, i) ==> !is_space(#[trigger] s[k]),
    decreases s.len() - i,
{
    if i < s.len() && !is_space(s[i]) {
        lemma_token_end(s, i + 1);
    }
}

/// The words from `i` on are the first word after `i` followed by the words after it.
pub proof fn lemma_tokens_from(s: Seq<char>, i: int)
    requires
        0 <= i,
    ensures
        token_start(s, i) >= s.len() ==> tokens_from(s, i).len() == 0,
        token_start(s, i) < s.len() ==> {
            let a = token_start(s, i);
            let b = token_end(s, a);
            let rest = tokens_from(s, b);
            &&& tokens_from(s, i).len() == 1 + rest.len()
            &&& tokens_from(s, i)[0] == s.subrange(a, b)
            &&& forall|k: int|
                0 <= k < rest.len() ==> tokens_from(s, i)[k + 1] == #[trigger] rest[k]
        },
{
}

/// Whether `c` separates words.
pub fn is_whitespace(c: char) -> (r: bool)
    ensures
        r == is_space(c),
{
    let u: u32 = c as u32;
    (0x09 <= u && u <= 0x0D) || u == 0x20 || u == 0x85 || u == 0xA0 || u == 0x1680 || (0x2000 <= u
        && u <= 0x200A) || u == 0x2028 || u == 0x2029 || u == 0x202F || u == 0x205F || u == 0x3000
}

/// The index of the first character from `i` on that is no white space.
pub(crate) fn skip_spaces(line: &str, len: usize, i: usize) -> (r: usize)
    requires
        len == line@.len(),
        i <= len,
    ensures
        r == token_start(line@, i as int),
        i <= r <= len,
{
    let mut k: usize = i;
    while k < len && is_whitespace(line.get_char(k))
        invariant
            len == line@.len(),
            i <= k <= len,
            token_start(line@, i as int) == token_start(line@, k as int),
        decreases len - k,
    {
        k += 1;
    }
    k
}

/// The index of the first white space from `i` on.
pub(crate) fn skip_word(line: &str, len: usize, i: usize) -> (r: usize)
    requires
        len == line@.len(),
        i <= len,
    ensures
        r == token_end(line@, i as int),
        i <= r <= len,
{
    let mut k: usize = i;
    while k < len && !is_whitespace(line.get_char(k))
        invariant
            len == line@.len(),
            i <= k <= len,
            token_end(line@, i as int) == token_end(line@, k as int),
        decreases len - k,
    {
        k += 1;
    }
    k
}

impl Pos {
    /// Reads a square such as `e2`.
    pub fn parse(s: &str) -> (r: Result<Pos, ParsePosError>)
        ensures
            r == parse_pos(s@),
    {
        if s.unicode_len() != 2 {
            return Err(ParsePosError::Length);
        }
        let file = s.get_char(0);
        if file < Pos::CHAR_MIN || file > Pos::CHAR_MAX {
            return Err(ParsePosError::Char);
        }
        let rank = s.get_char(1);
        if rank < '1' || rank > '8' {
            return Err(ParsePosError::Digit);
        }
        Ok(
            Pos {
                x: (file as u32 - Pos::CHAR_MIN as u32) as i8,
                y: (rank as u32 - '1' as u32) as i8,
            },
        )
    }
}

impl Pos {
    /// The file letter and the rank digit of a square of the board.
    pub fn to_chars(&self) -> (r: (char, char))
        requires
            self.on_board(),
        ensures
            parse_pos(seq![r.0, r.1]) == Ok::<Pos, ParsePosError>(*self),
    {
        let file = (Pos::CHAR_MIN as u8 + self.x as u8) as char;
        let rank = ('1' as u8 + self.y as u8) as char;
        (file, rank)
    }
}

impl ParsePosError {
    /// A few words on what is wrong.
    pub fn message(&self) -> (r: &'static str)
        ensures
            r@ == match self {
                ParsePosError::Char => "Invalid character"@,
                ParsePosError::Digit => "Invalid digit"@,
                ParsePosError::Length => "Invalid length"@,
            },
    {
        match self {
            ParsePosError::Char => "Invalid character",
            ParsePosError::Digit => "Invalid digit",
            ParsePosError::Length => "Invalid length",
        }
    }
}

impl core::str::FromStr for Pos {
    type Err = ParsePosError;

    /// Reads a square such as `e2`.
    fn from_str(s: &str) -> (r: Result<Pos, ParsePosError>)
        ensures
            r == parse_pos(s@),
    {
        Pos::parse(s)
    }
}

impl Move {
    /// Reads a move such as `e2 e4`: two squares with white space between them.
    pub fn parse(s: &str) -> (r: Result<Move, ParseMoveError>)
        ensures
            r == parse_move(s@),
    {
        let len = s.unicode_len();
        let a0 = skip_spaces(s, len, 0);
        if a0 >= len {
            return Err(ParseMoveError::Length);
        }
        let b0 = skip_word(s, len, a0);
        proof {
            lemma_token_start(s@, 0);
            lemma_token_end(s@, a0 as int);
            lemma_tokens_from(s@, 0);
            lemma_tokens_from(s@, b0 as int);
        }
        let from = match Pos::parse(s.substring_char(a0, b0)) {
            Ok(p) => p,
            Err(e) => {
                return Err(ParseMoveError::Pos(true, e));
            },
        };
        let a1 = skip_spaces(s, len, b0);
        if a1 >= len {
            return Err(ParseMoveError::Length);
        }
        let b1 = skip_word(s, len, a1);
        proof {
            lemma_token_start(s@, b0 as int);
            lemma_token_end(s@, a1 as int);
            lemma_tokens_from(s@, b1 as int);
        }
        let to = match Pos::parse(s.substring_char(a1, b1)) {
            Ok(p) => p,
            Err(e) => {
                return Err(ParseMoveError::Pos(false, e));
            },
        };
        let a2 = skip_spaces(s, len, b1);
        if a2 < len {
            Err(ParseMoveError::Length)
        } else {
            Ok(Move { from, to })
        }
    }
}

impl core::str::FromStr for Move {
    type Err = ParseMoveError;

    /// Reads a move such as `e2 e4`: two squares with white space between them.
    fn from_str(s: &str) -> (r: Result<Move, ParseMoveError>)
        ensures
            r == parse_move(s@),
    {
        Move::parse(s)
    }
}

impl ParsePositions {
    /// Reads a line that holds one square or a move.
    pub fn parse(line: &str) -> (r: ParsePositions)
        ensures
            r == parse_positions(line@),
    {
        let len = line.unicode_len();
        let a0 = skip_spaces(line, len, 0);
        if a0 >= len {
            return ParsePositions::Error(ParsePosError::Length);
        }
        let b0 = skip_word(line, len, a0);
        proof {
            lemma_token_start(line@, 0);
            lemma_token_end(line@, a0 as int);
            lemma_tokens_from(line@, 0);
            lemma_tokens_from(line@, b0 as int);
        }
        let from = match Pos::parse(line.substring_char(a0, b0)) {
            Ok(p) => p,
            Err(e) => {
                return ParsePositions::Error(e);
            },
        };
        let a1 = skip_spaces(line, len, b0);
        if a1 >= len {
            return ParsePositions::Pos(from);
        }
        let b1 = skip_word(line, len, a1);
        proof {
            lemma_token_start(line@, b0 as int);
            lemma_token_end(line@, a1 as int);
            lemma_tokens_from(line@, b1 as int);
        }
        let to = match Pos::parse(line.substring_char(a1, b1)) {
            Ok(p) => p,
            Err(e) => {
                return ParsePositions::Error(e);
            },
        };
        let a2 = skip_spaces(line, len, b1);
        if a2 < len {
            ParsePositions::Error(ParsePosError::Length)
        } else {
            ParsePositions::Move(Move { from, to })
        }
    }
}

} // verus!
