//! The ways in which source text can be rejected.
use vstd::prelude::*;
use crate::token::{Token, TokenView};

verus! {

/// Why lexing or parsing stopped.
#[derive(Debug, PartialEq)]
pub enum Error {
    /// No token starts with this character.
    UnexpectedStartOfToken(char),
    /// A two-character operator was cut short; holds what followed, if anything.
    UnexpectedCharacter(Option<char>),
    /// A backslash outside a line continuation; holds what followed, if anything.
    UnpairedBackslash(Option<char>),
    /// A line starts at this column, which no enclosing block starts at.
    UnmatchedIndentationLevel(u64),
    /// The grammar admits no such token at this place.
    UnexpectedToken(Token),
}

/// The mathematical value of an [`Error`].
pub enum ErrorView {
    UnexpectedStartOfToken(char),
    UnexpectedCharacter(Option<char>),
    UnpairedBackslash(Option<char>),
    UnmatchedIndentationLevel(nat),
    UnexpectedToken(TokenView),
}

impl View for Error {
    type V = ErrorView;

    open spec fn view(&self) -> ErrorView {
        match self {
            Error::UnexpectedStartOfToken(c) => ErrorView::UnexpectedStartOfToken(*c),
            Error::UnexpectedCharacter(c) => ErrorView::UnexpectedCharacter(*c),
            Error::UnpairedBackslash(c) => ErrorView::UnpairedBackslash(*c),
            Error::UnmatchedIndentationLevel(column) => ErrorView::UnmatchedIndentationLevel(
                *column as nat,
            ),
            Error::UnexpectedToken(token) => ErrorView::UnexpectedToken(token@),
        }
    }
}

} // verus!
