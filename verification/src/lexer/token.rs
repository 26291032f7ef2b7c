//! The token model.

use vstd::prelude::*;
use crate::common::span::Span;

verus! {

/// Reserved words.
#[derive(Debug, Clone, Copy, PartialEq, Eq, Structural)]
pub enum Keyword {
    Auto,
    Extrn,
    If,
    Else,
    While,
    Switch,
    Case,
    Default,
    Return,
    Goto,
}

/// Operators. The compound assignments are written with the `=` first, as in
/// `=+`.
#[derive(Debug, Clone, Copy, PartialEq, Eq, Structural)]
pub enum Operator {
    Plus,
    Minus,
    /// `*`: multiplication, and indirection as a prefix.
    Star,
    Slash,
    Percent,
    /// `&`: bitwise and, and address-of as a prefix.
    Amp,
    Bar,
    Caret,
    LShift,
    RShift,
    Bang,
    Tilde,
    Equal,
    NotEqual,
    Less,
    Greater,
    LessEq,
    GreaterEq,
    Inc,
    Dec,
    Assign,
    AssignPlus,
    AssignMinus,
    AssignStar,
    AssignSlash,
    AssignPercent,
    AssignAmp,
}

/// Punctuation.
#[derive(Debug, Clone, Copy, PartialEq, Eq, Structural)]
pub enum Delimiter {
    LParen,
    RParen,
    LBrack,
    RBrack,
    LBrace,
    RBrace,
    Comma,
    Semicolon,
    Colon,
    QMark,
}

/// A token. Identifiers and string literals own their text.
#[derive(Debug, PartialEq)]
pub enum Token {
    Keyword(Keyword),
    Operator(Operator),
    Delimiter(Delimiter),
    Identifier(String),
    Integer(i64),
    /// The decoded text of a string literal: escapes are already resolved.
    StringLiteral(String),
    /// The packed value of a character literal.
    CharLiteral(i64),
    /// The end-of-input marker.
    EOF,
}

impl Clone for Token {
    fn clone(&self) -> (copy: Self)
        ensures
            copy == *self,
    {
        match self {
            Token::Keyword(k) => Token::Keyword(*k),
            Token::Operator(o) => Token::Operator(*o),
            Token::Delimiter(d) => Token::Delimiter(*d),
            Token::Identifier(s) => Token::Identifier(s.clone()),
            Token::Integer(n) => Token::Integer(*n),
            Token::StringLiteral(s) => Token::StringLiteral(s.clone()),
            Token::CharLiteral(n) => Token::CharLiteral(*n),
            Token::EOF => Token::EOF,
        }
    }
}

/// A token together with the source range it was read from.
#[derive(Debug, PartialEq)]
pub struct SpannedToken {
    pub token: Token,
    pub span: Span,
}

impl Clone for SpannedToken {
    fn clone(&self) -> (copy: Self)
        ensures
            copy == *self,
    {
        SpannedToken { token: self.token.clone(), span: self.span }
    }
}

/// The view of a [`Token`]: the text of an identifier or of a string literal
/// is a sequence of characters.
pub enum TokenView {
    Keyword(Keyword),
    Operator(Operator),
    Delimiter(Delimiter),
    Identifier(Seq<char>),
    Integer(i64),
    StringLiteral(Seq<char>),
    CharLiteral(i64),
    EOF,
}

impl View for Token {
    type V = TokenView;

    open spec fn view(&self) -> TokenView {
        match self {
            Token::Keyword(keyword) => TokenView::Keyword(*keyword),
            Token::Operator(operator) => TokenView::Operator(*operator),
            Token::Delimiter(delimiter) => TokenView::Delimiter(*delimiter),
            Token::Identifier(name) => TokenView::Identifier(name@),
            Token::Integer(value) => TokenView::Integer(*value),
            Token::StringLiteral(content) => TokenView::StringLiteral(content@),
            Token::CharLiteral(value) => TokenView::CharLiteral(*value),
            Token::EOF => TokenView::EOF,
        }
    }
}

/// The view of a [`SpannedToken`].
pub struct SpannedTokenView {
    pub token: TokenView,
    pub span: Span,
}

impl View for SpannedToken {
    type V = SpannedTokenView;

    open spec fn view(&self) -> SpannedTokenView {
        SpannedTokenView { token: self.token@, span: self.span }
    }
}

impl Token {
    /// Whether the token is an integer, a character or a string literal.
    pub open spec fn is_literal(self) -> bool {
        self is Integer || self is CharLiteral || self is StringLiteral
    }

    /// Tells whether the token is an integer, a character or a string
    /// literal.
    pub fn literal(&self) -> (b: bool)
        ensures
            b == self.is_literal(),
    {
        match self {
            Token::Integer(_) | Token::CharLiteral(_) | Token::StringLiteral(_) => true,
            _ => false,
        }
    }
}

} // verus!
