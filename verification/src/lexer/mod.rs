//! Lexical analysis: tokens and the scanner that produces them.

use vstd::prelude::*;
use crate::common::span::Location;

pub mod laws;
pub mod scanner;
pub mod token;

verus! {

/// What was wrong with the characters. Each error carries the location at
/// which the scanner stood when it found it: just after the last character it
/// had consumed.
#[derive(Debug, PartialEq)]
pub enum LexError {
    /// A character that starts no token.
    UnexpectedChar(char, Location),
    /// A string literal that the input ends in.
    UnterminatedString(Location),
    /// A numeric literal, given with its text, whose value does not fit.
    InvalidNumber(String, Location),
    /// A comment that the input ends in.
    UnterminatedComment(Location),
    /// A character literal that the input ends in.
    UnterminatedChar(Location),
}

/// The view of a [`LexError`].
pub enum LexErrorView {
    UnexpectedChar(char, Location),
    UnterminatedString(Location),
    InvalidNumber(Seq<char>, Location),
    UnterminatedComment(Location),
    UnterminatedChar(Location),
}

impl View for LexError {
    type V = LexErrorView;

    open spec fn view(&self) -> LexErrorView {
        match self {
            LexError::UnexpectedChar(c, location) => LexErrorView::UnexpectedChar(*c, *location),
            LexError::UnterminatedString(location) => LexErrorView::UnterminatedString(*location),
            LexError::InvalidNumber(lexeme, location) => LexErrorView::InvalidNumber(
                lexeme@,
                *location,
            ),
            LexError::UnterminatedComment(location) => LexErrorView::UnterminatedComment(
                *location,
            ),
            LexError::UnterminatedChar(location) => LexErrorView::UnterminatedChar(*location),
        }
    }
}

} // verus!
