//! The lines of a text interface to the board.

use vstd::prelude::*;
use vstd::string::*;

use crate::util::parse::{
    lemma_token_end, lemma_token_start, lemma_tokens_from, parse_positions, skip_spaces,
    skip_word, tokens, ParsePosError, ParsePositions,
};
use crate::util::pos::{Move, Pos};

verus! {

/// What a line of input asks for.
#[derive(Debug, Clone, Copy, PartialEq, Eq)]
pub enum Command {
    /// Leave.
    Exit,
    /// Show the board.
    Print,
    /// Show the captured pieces.
    Taken,
    /// Start a new game.
    Reset,
    /// Show the commands.
    Help,
    /// Show what the piece on a square may do.
    Inspect(Pos),
    /// Make a move.
    Move(Move),
    /// Nothing that can be done.
    Error(ParsePosError),
}

/// Whether the line holds the given word and nothing else but white space.
pub open spec fn is_word(s: Seq<char>, word: Seq<char>) -> bool {
    tokens(s).len() == 1 && tokens(s)[0] == word
}

/// What a line asks for: a control word on its own, or else a square or a move.
pub open spec fn parse_command(s: Seq<char>) -> Command {
    if is_word(s, "exit"@) {
        Command::Exit
    } else if is_word(s, "print"@) {
        Command::Print
    } else if is_word(s, "taken"@) {
        Command::Taken
    } else if is_word(s, "reset"@) {
        Command::Reset
    } else if is_word(s, "help"@) {
        Command::Help
    } else {
        match parse_positions(s) {
            ParsePositions::Pos(p) => Command::Inspect(p),
            ParsePositions::Move(mov) => Command::Move(mov),
            ParsePositions::Error(e) => Command::Error(e),
        }
    }
}

/// Whether two texts hold the same characters.
pub fn same_text(a: &str, b: &str) -> (r: bool)
    ensures
        r == (a@ == b@),
{
    let len = a.unicode_len();
    if len != b.unicode_len() {
        return false;
    }
    let mut i: usize = 0;
    while i < len
        invariant
            len == a@.len(),
            len == b@.len(),
            i <= len,
            forall|k: int| 0 <= k < i ==> a@[k] == b@[k],
        decreases len - i,
    {
        if a.get_char(i) != b.get_char(i) {
            return false;
        }
        i += 1;
    }
    assert(a@ =~= b@);
    true
}

impl Command {
    /// Reads a line of input.
    pub fn parse(line: &str) -> (r: Command)
        ensures
            r == parse_command(line@),
    {
        let len = line.unicode_len();
        let a = skip_spaces(line, len, 0);
        proof {
            lemma_token_start(line@, 0);
            lemma_tokens_from(line@, 0);
        }
        if a < len {
            let b = skip_word(line, len, a);
            let rest = skip_spaces(line, len, b);
            proof {
                lemma_token_end(line@, a as int);
                lemma_token_start(line@, b as int);
                lemma_tokens_from(line@, b as int);
            }
            if rest >= len {
                let word = line.substring_char(a, b);
                if same_text(word, "exit") {
                    return Command::Exit;
                } else if same_text(word, "print") {
                    return Command::Print;
                } else if same_text(word, "taken") {
                    return Command::Taken;
                } else if same_text(word, "reset") {
                    return Command::Reset;
                } else if same_text(word, "help") {
                    return Command::Help;
                }
            }
        }
        match ParsePositions::parse(line) {
            ParsePositions::Pos(p) => Command::Inspect(p),
            ParsePositions::Move(mov) => Command::Move(mov),
            ParsePositions::Error(e) => Command::Error(e),
        }
    }
}

} // verus!
