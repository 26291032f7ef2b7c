//! The parser: a cursor over a buffer of tokens, the expression grammar and
//! the statement grammar.
//!
//! The buffer is read up to its end-of-input marker. The end of the buffer is
//! itself read as an end-of-input marker with an unset span, so a buffer
//! without a marker is parsed as if one followed its last token.

use vstd::prelude::*;
use crate::common::span::{Location, Span};
use crate::lexer::token::{Delimiter, Keyword, Operator, SpannedToken, Token};
use crate::parser::precedence::Precedence;

pub mod expr;
pub mod laws;
pub mod names;
pub mod precedence;
pub mod progress;
pub mod stmt;

verus! {

/// What was wrong with the tokens. The first error ends the parse.
#[derive(Debug, PartialEq)]
pub enum ParseError {
    /// A required token was absent.
    UnexpectedToken(Expected),
    /// A token stood where it cannot stand.
    UnknownToken(SpannedToken),
    /// The input ended where a token had to be consumed.
    UnexpectedEOF,
    /// The left operand of the assignment token is not an lvalue.
    RValueAssign(SpannedToken),
    /// An `auto` declaration after the first statement of a block.
    AutoRedecl(SpannedToken),
    /// A vector was declared without a size but with initializers.
    UnspecifiedArraySizeInitialization(SpannedToken),
}

/// The token that was required and the one that stood in its place.
#[derive(Debug, PartialEq)]
pub struct Expected {
    pub expected: Token,
    pub found: SpannedToken,
}

/// The outcome of a grammar rule applied at a position of the buffer: the
/// value it read and the position after it, or the error.
pub type Parsed<T> = Result<(T, int), ParseError>;

/// The token that is read where the buffer has none.
pub open spec fn end_marker() -> SpannedToken {
    SpannedToken { token: Token::EOF, span: Span::unset() }
}

/// The token at a position of the buffer.
pub open spec fn token_at(tokens: Seq<SpannedToken>, position: int) -> SpannedToken {
    if 0 <= position < tokens.len() {
        tokens[position]
    } else {
        end_marker()
    }
}

/// Whether the token at a position is the end-of-input marker.
pub open spec fn at_end(tokens: Seq<SpannedToken>, position: int) -> bool {
    token_at(tokens, position).token is EOF
}

/// The position after the token at `position`: the end-of-input marker is
/// never passed.
pub open spec fn position_after(tokens: Seq<SpannedToken>, position: int) -> int {
    if at_end(tokens, position) {
        position
    } else {
        position + 1
    }
}

/// Whether a rule that started at `from` and ended at `to` has consumed at
/// least one token of the buffer. The rules that repeat another one go on
/// only after a step that has, which shows that they come to an end; the
/// module `progress` shows that every step that succeeds has.
pub open spec fn advanced(tokens: Seq<SpannedToken>, from: int, to: int) -> bool {
    from < to <= tokens.len()
}

/// Whether the token at a position is the given delimiter.
pub open spec fn delimiter_at(tokens: Seq<SpannedToken>, position: int, delimiter: Delimiter) -> bool {
    token_at(tokens, position).token == Token::Delimiter(delimiter)
}

/// The rule that requires a delimiter: it reads the token at `position` if
/// that is the delimiter, and fails with both tokens otherwise.
pub open spec fn expect_at(tokens: Seq<SpannedToken>, position: int, delimiter: Delimiter) -> Parsed<
    SpannedToken,
> {
    let found = token_at(tokens, position);
    if found.token == Token::Delimiter(delimiter) {
        Ok((found, position + 1))
    } else {
        Err(
            ParseError::UnexpectedToken(
                Expected { expected: Token::Delimiter(delimiter), found },
            ),
        )
    }
}

/// The priority level of a token that follows an operand. `++` and `--` count
/// as postfix here: as prefixes they start an operand and are never looked up.
pub open spec fn precedence_of(token: Token) -> Precedence {
    match token {
        Token::Operator(op) => match op {
            Operator::Assign
            | Operator::AssignPlus
            | Operator::AssignMinus
            | Operator::AssignStar
            | Operator::AssignSlash
            | Operator::AssignPercent
            | Operator::AssignAmp => Precedence::Assignment,
            Operator::Bar => Precedence::BitOr,
            Operator::Caret => Precedence::BitXor,
            Operator::Amp => Precedence::BitAnd,
            Operator::Equal | Operator::NotEqual => Precedence::Equality,
            Operator::Less
            | Operator::Greater
            | Operator::LessEq
            | Operator::GreaterEq => Precedence::Comparison,
            Operator::LShift | Operator::RShift => Precedence::Shift,
            Operator::Plus | Operator::Minus => Precedence::Addition,
            Operator::Star | Operator::Slash | Operator::Percent => Precedence::Multiplication,
            Operator::Inc | Operator::Dec => Precedence::Postfix,
            Operator::Bang | Operator::Tilde => Precedence::Lowest,
        },
        Token::Delimiter(Delimiter::QMark) => Precedence::Ternary,
        Token::Delimiter(Delimiter::LParen) | Token::Delimiter(Delimiter::LBrack) => {
            Precedence::Postfix
        },
        _ => Precedence::Lowest,
    }
}

/// The left binding power of the token at a position.
pub open spec fn left_power_at(tokens: Seq<SpannedToken>, position: int) -> u8 {
    precedence_of(token_at(tokens, position).token).binding_power().0
}

/// A cursor over a buffer of tokens.
#[derive(Debug)]
pub struct Parser<'a> {
    pub tokens: &'a [SpannedToken],
    pub position: usize,
}

impl<'a> Parser<'a> {
    /// A parser at the start of the buffer.
    pub fn new(tokens: &'a [SpannedToken]) -> (parser: Self)
        ensures
            parser.tokens@ == tokens@,
            parser.position == 0,
    {
        Parser { tokens, position: 0 }
    }

    /// The token under the cursor.
    pub(crate) fn peek(&self) -> (token: &'a SpannedToken)
        ensures
            *token == token_at(self.tokens@, self.position as int),
    {
        if self.position < self.tokens.len() {
            &self.tokens[self.position]
        } else {
            &SpannedToken {
                token: Token::EOF,
                span: Span {
                    start: Location { offset: 0, line: 0, column: 0 },
                    end: Location { offset: 0, line: 0, column: 0 },
                },
            }
        }
    }

    /// Whether the cursor is on the end-of-input marker.
    pub(crate) fn is_at_end(&self) -> (end: bool)
        ensures
            end == at_end(self.tokens@, self.position as int),
    {
        matches!(self.peek().token, Token::EOF)
    }

    /// Moves the cursor past the token under it, unless that is the
    /// end-of-input marker, and returns that token.
    pub(crate) fn advance(&mut self) -> (token: &'a SpannedToken)
        ensures
            *token == token_at(old(self).tokens@, old(self).position as int),
            final(self).tokens == old(self).tokens,
            final(self).position == position_after(old(self).tokens@, old(self).position as int),
    {
        let token = self.peek();
        if self.position < self.tokens.len() && !self.is_at_end() {
            self.position += 1;
        }
        token
    }

    /// Moves the cursor past the token under it if that is the delimiter, and
    /// tells whether it did.
    pub(crate) fn match_token(&mut self, expected: Delimiter) -> (matched: bool)
        ensures
            matched == delimiter_at(old(self).tokens@, old(self).position as int, expected),
            final(self).tokens == old(self).tokens,
            final(self).position == if matched {
                old(self).position + 1
            } else {
                old(self).position as int
            },
    {
        if self.delimiter_ahead(expected) {
            self.advance();
            return true;
        }
        false
    }

    /// Whether the token under the cursor is the delimiter.
    pub(crate) fn delimiter_ahead(&self, expected: Delimiter) -> (ahead: bool)
        ensures
            ahead == delimiter_at(self.tokens@, self.position as int, expected),
    {
        match &self.peek().token {
            Token::Delimiter(found) => *found == expected,
            _ => false,
        }
    }

    /// Whether the token under the cursor is the keyword.
    pub(crate) fn keyword_ahead(&self, expected: Keyword) -> (ahead: bool)
        ensures
            ahead == (token_at(self.tokens@, self.position as int).token == Token::Keyword(
                expected,
            )),
    {
        match &self.peek().token {
            Token::Keyword(found) => *found == expected,
            _ => false,
        }
    }

    /// Moves the cursor past the token under it if that is the delimiter, and
    /// fails with both tokens otherwise.
    pub(crate) fn expect(&mut self, expected: Delimiter) -> (found: Result<&'a SpannedToken, ParseError>)
        ensures
            final(self).tokens == old(self).tokens,
            match expect_at(old(self).tokens@, old(self).position as int, expected) {
                Ok((token, position)) => found == Ok::<&SpannedToken, ParseError>(&token)
                    && final(self).position == position,
                Err(error) => found == Err::<&SpannedToken, ParseError>(error)
                    && final(self).position == old(self).position,
            },
    {
        let token = self.peek();
        if self.delimiter_ahead(expected) {
            return Ok(self.advance());
        }
        Err(
            ParseError::UnexpectedToken(
                Expected { expected: Token::Delimiter(expected), found: token.clone() },
            ),
        )
    }

    /// The span of the token under the cursor; the unset span past the end of
    /// the buffer.
    pub(crate) fn current_span(&self) -> (span: Span)
        ensures
            span == token_at(self.tokens@, self.position as int).span,
    {
        self.peek().span
    }

    /// The token after the one under the cursor.
    pub(crate) fn peek_next(&self) -> (token: &'a Token)
        ensures
            *token == token_at(self.tokens@, self.position + 1).token,
    {
        if self.position < self.tokens.len() && self.position + 1 < self.tokens.len() {
            &self.tokens[self.position + 1].token
        } else {
            &Token::EOF
        }
    }

    /// The priority level of the token under the cursor, as one that follows
    /// an operand.
    pub(crate) fn peek_precedence(&self) -> (level: Precedence)
        ensures
            level == precedence_of(token_at(self.tokens@, self.position as int).token),
    {
        self.get_precedence(&self.peek().token)
    }

    /// The priority level of a token that follows an operand.
    pub(crate) fn get_precedence(&self, tok: &Token) -> (level: Precedence)
        ensures
            level == precedence_of(*tok),
    {
        match tok {
            Token::Operator(op) => match op {
                Operator::Assign
                | Operator::AssignPlus
                | Operator::AssignMinus
                | Operator::AssignStar
                | Operator::AssignSlash
                | Operator::AssignPercent
                | Operator::AssignAmp => Precedence::Assignment,
                Operator::Bar => Precedence::BitOr,
                Operator::Caret => Precedence::BitXor,
                Operator::Amp => Precedence::BitAnd,
                Operator::Equal | Operator::NotEqual => Precedence::Equality,
                Operator::Less
                | Operator::Greater
                | Operator::LessEq
                | Operator::GreaterEq => Precedence::Comparison,
                Operator::LShift | Operator::RShift => Precedence::Shift,
                Operator::Plus | Operator::Minus => Precedence::Addition,
                Operator::Star | Operator::Slash | Operator::Percent => Precedence::Multiplication,
                Operator::Inc | Operator::Dec => Precedence::Postfix,
                _ => Precedence::Lowest,
            },
            Token::Delimiter(Delimiter::QMark) => Precedence::Ternary,
            Token::Delimiter(Delimiter::LParen) | Token::Delimiter(Delimiter::LBrack) => {
                Precedence::Postfix
            },
            _ => Precedence::Lowest,
        }
    }
}

} // verus!
