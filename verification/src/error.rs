//! What can be wrong with path data.
use vstd::prelude::*;

verus! {

/// Why path data was refused. The first fault that is met ends the parse;
/// nothing is drawn from data that holds one.
#[derive(Clone, PartialEq, Eq, Debug)]
pub enum ParseError {
    /// The command is none of `m M l L v V h H c C s S z Z`.
    UnsupportedCommand(char),
    /// The command, the number of arguments it takes, and the number it got.
    ArityMismatch(char, usize, usize),
    /// The text stands where a number belongs and is not one that can be read.
    MalformedNumber(String),
    /// A token ended before its command.
    UnexpectedEndOfInput,
}

/// A `ParseError` as specifications see it.
pub enum ParseFailure {
    UnsupportedCommand(char),
    ArityMismatch(char, nat, nat),
    MalformedNumber(Seq<char>),
    UnexpectedEndOfInput,
}

impl View for ParseError {
    type V = ParseFailure;

    open spec fn view(&self) -> ParseFailure {
        match *self {
            ParseError::UnsupportedCommand(c) => ParseFailure::UnsupportedCommand(c),
            ParseError::ArityMismatch(c, expected, actual) => ParseFailure::ArityMismatch(
                c,
                expected as nat,
                actual as nat,
            ),
            ParseError::MalformedNumber(text) => ParseFailure::MalformedNumber(text@),
            ParseError::UnexpectedEndOfInput => ParseFailure::UnexpectedEndOfInput,
        }
    }
}

} // verus!
