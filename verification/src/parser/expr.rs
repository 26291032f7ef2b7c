//! The expression grammar: an operator-precedence parser.
//!
//! An expression is a primary followed by the operators that continue it. Which
//! operators continue an operand is decided by binding powers alone: an
//! operator is taken while its left binding power exceeds the limit the
//! operand is parsed under. The operand of a prefix operator is parsed under
//! the right power of the prefix level, and the right operand of an operator
//! between two operands under the limit that the table gives for its level.

use vstd::prelude::*;
use crate::ast::{expr_views, Expr, ExprView};
use crate::lexer::token::{Delimiter, Operator, SpannedToken, Token};
use crate::parser::precedence::Precedence;
use crate::parser::{
    advanced, at_end, delimiter_at, expect_at, left_power_at, precedence_of, token_at, ParseError, Parsed,
    Parser,
};

verus! {

/// The operators that may stand before an operand.
pub open spec fn is_prefix_operator(op: Operator) -> bool {
    op == Operator::Plus || op == Operator::Minus || op == Operator::Bang || op == Operator::Tilde
        || op == Operator::Inc || op == Operator::Dec || op == Operator::Amp || op
        == Operator::Star
}

/// The arithmetic and comparison operators between two operands.
pub open spec fn is_binary_operator(op: Operator) -> bool {
    op == Operator::Plus || op == Operator::Minus || op == Operator::Star || op == Operator::Slash
        || op == Operator::Percent || op == Operator::Equal || op == Operator::NotEqual || op
        == Operator::Less || op == Operator::LessEq || op == Operator::Greater || op
        == Operator::GreaterEq
}

/// The bitwise operators between two operands.
pub open spec fn is_bitwise_operator(op: Operator) -> bool {
    op == Operator::Amp || op == Operator::Bar || op == Operator::Caret || op == Operator::LShift
        || op == Operator::RShift || op == Operator::Tilde
}

/// The assignment operators.
pub open spec fn is_assignment_operator(op: Operator) -> bool {
    op == Operator::Assign || op == Operator::AssignAmp || op == Operator::AssignMinus || op
        == Operator::AssignPercent || op == Operator::AssignPlus || op == Operator::AssignSlash
        || op == Operator::AssignStar
}

impl ExprView {
    /// Whether the expression denotes a storage location: a variable, an
    /// indexing, or an indirection.
    pub open spec fn is_lvalue(self) -> bool {
        match self {
            ExprView::Variable { .. } => true,
            ExprView::Get { .. } => true,
            ExprView::Unary { operator, .. } => operator.token == Token::Operator(Operator::Star),
            _ => false,
        }
    }

    /// Whether the expression keeps the rules of the tree: the token of every
    /// node is of the node's kind, a name in a variable, a literal in a
    /// literal and an operator of its class in a node with an operator, and
    /// the left operand of every assignment is an lvalue.
    pub open spec fn well_formed(self) -> bool
        decreases self,
    {
        match self {
            ExprView::Assign { lvalue, operator, value } => {
                &&& operator.token matches Token::Operator(op) && is_assignment_operator(op)
                &&& lvalue.is_lvalue()
                &&& lvalue.well_formed()
                &&& value.well_formed()
            },
            ExprView::Binary { left, operator, right } => {
                &&& operator.token matches Token::Operator(op) && is_binary_operator(op)
                &&& left.well_formed()
                &&& right.well_formed()
            },
            ExprView::Call { callee, arguments } => callee.well_formed() && forall|i: int|
                0 <= i < arguments.len() ==> (#[trigger] arguments[i]).well_formed(),
            ExprView::Grouping { expression } => expression.well_formed(),
            ExprView::Literal { value } => value.token.is_literal(),
            ExprView::Unary { operator, right } => {
                &&& operator.token matches Token::Operator(op) && is_prefix_operator(op)
                &&& right.well_formed()
            },
            ExprView::Bitwise { left, operator, right } => {
                &&& operator.token matches Token::Operator(op) && is_bitwise_operator(op)
                &&& left.well_formed()
                &&& right.well_formed()
            },
            ExprView::Variable { name } => name.token is Identifier,
            ExprView::Get { target, index } => target.well_formed() && index.well_formed(),
            ExprView::Ternary { condition, then_branch, else_branch } => condition.well_formed()
                && then_branch.well_formed() && else_branch.well_formed(),
            ExprView::Postfix { left, operator } => {
                &&& operator.token == Token::Operator(Operator::Inc) || operator.token
                    == Token::Operator(Operator::Dec)
                &&& left.well_formed()
            },
        }
    }
}

/// The rule for a primary at `position`: a literal, a name, a prefix
/// operator with its operand, or an expression in parentheses.
pub open spec fn primary_at(tokens: Seq<SpannedToken>, position: int) -> Parsed<ExprView>
    decreases tokens.len() - position, 0nat,
{
    let first = token_at(tokens, position);
    if at_end(tokens, position) {
        Err(ParseError::UnexpectedEOF)
    } else {
        match first.token {
            Token::Integer(_) | Token::CharLiteral(_) | Token::StringLiteral(_) => Ok(
                (ExprView::Literal { value: first }, position + 1),
            ),
            Token::Identifier(_) => Ok((ExprView::Variable { name: first }, position + 1)),
            Token::Operator(op) => if is_prefix_operator(op) {
                match expression_at(tokens, position + 1, Precedence::Unary.binding_power().1) {
                    Ok((right, end)) => Ok(
                        (ExprView::Unary { operator: first, right: Box::new(right) }, end),
                    ),
                    Err(error) => Err(error),
                }
            } else {
                Err(ParseError::UnknownToken(first))
            },
            Token::Delimiter(Delimiter::LParen) => match expression_at(
                tokens,
                position + 1,
                Precedence::Lowest.binding_power().1,
            ) {
                Ok((inner, close)) => match expect_at(tokens, close, Delimiter::RParen) {
                    Ok((_, end)) => Ok((ExprView::Grouping { expression: Box::new(inner) }, end)),
                    Err(error) => Err(error),
                },
                Err(error) => Err(error),
            },
            _ => Err(ParseError::UnknownToken(first)),
        }
    }
}

/// The rule for an expression at `position`, parsed under the limit
/// `min_power`: a primary, continued by every operator that follows with a
/// left binding power above the limit.
pub open spec fn expression_at(tokens: Seq<SpannedToken>, position: int, min_power: u8) -> Parsed<
    ExprView,
>
    decreases tokens.len() - position, 3nat,
{
    match primary_at(tokens, position) {
        Ok((left, next)) => if advanced(tokens, position, next) {
            continued_at(tokens, next, left, min_power)
        } else {
            Err(ParseError::UnexpectedEOF)
        },
        Err(error) => Err(error),
    }
}

/// The rule that continues the operand `left`, which ends at `position`: while
/// the next token's left binding power exceeds `min_power`, that token and
/// what it governs are taken into the operand.
pub open spec fn continued_at(
    tokens: Seq<SpannedToken>,
    position: int,
    left: ExprView,
    min_power: u8,
) -> Parsed<ExprView>
    decreases tokens.len() - position, 2nat,
{
    if left_power_at(tokens, position) > min_power {
        match operator_at(tokens, position, left) {
            Ok((operand, next)) => if advanced(tokens, position, next) {
                continued_at(tokens, next, operand, min_power)
            } else {
                Err(ParseError::UnexpectedEOF)
            },
            Err(error) => Err(error),
        }
    } else {
        Ok((left, position))
    }
}

/// The rule for the arguments of a call, from `position` on, after the
/// arguments in `read`: expressions separated by commas.
pub open spec fn arguments_at(tokens: Seq<SpannedToken>, position: int, read: Seq<ExprView>) -> Parsed<
    Seq<ExprView>,
>
    decreases tokens.len() - position, 4nat,
{
    match expression_at(tokens, position, Precedence::Lowest.binding_power().1) {
        Ok((argument, next)) => if advanced(tokens, position, next) {
            if delimiter_at(tokens, next, Delimiter::Comma) {
                arguments_at(tokens, next + 1, read.push(argument))
            } else {
                Ok((read.push(argument), next))
            }
        } else {
            Err(ParseError::UnexpectedEOF)
        },
        Err(error) => Err(error),
    }
}

/// The rule for the operator at `position` with the operand `left` before it:
/// a postfix operator, a call, an indexing, a conditional, or an operator
/// between two operands with its right operand.
pub open spec fn operator_at(tokens: Seq<SpannedToken>, position: int, left: ExprView) -> Parsed<
    ExprView,
>
    decreases tokens.len() - position, 1nat,
{
    let operator = token_at(tokens, position);
    if at_end(tokens, position) {
        Err(ParseError::UnexpectedEOF)
    } else {
        match operator.token {
            Token::Operator(op) => if op == Operator::Inc || op == Operator::Dec {
                Ok((ExprView::Postfix { left: Box::new(left), operator }, position + 1))
            } else {
                match expression_at(
                    tokens,
                    position + 1,
                    precedence_of(operator.token).operand_limit(),
                ) {
                    Ok((right, end)) => if is_binary_operator(op) {
                        Ok(
                            (
                                ExprView::Binary {
                                    left: Box::new(left),
                                    operator,
                                    right: Box::new(right),
                                },
                                end,
                            ),
                        )
                    } else if is_bitwise_operator(op) {
                        Ok(
                            (
                                ExprView::Bitwise {
                                    left: Box::new(left),
                                    operator,
                                    right: Box::new(right),
                                },
                                end,
                            ),
                        )
                    } else if is_assignment_operator(op) {
                        if left.is_lvalue() {
                            Ok(
                                (
                                    ExprView::Assign {
                                        lvalue: Box::new(left),
                                        operator,
                                        value: Box::new(right),
                                    },
                                    end,
                                ),
                            )
                        } else {
                            Err(ParseError::RValueAssign(operator))
                        }
                    } else {
                        Err(ParseError::UnknownToken(operator))
                    },
                    Err(error) => Err(error),
                }
            },
            Token::Delimiter(Delimiter::LParen) => {
                let list = if delimiter_at(tokens, position + 1, Delimiter::RParen) {
                    Ok((Seq::<ExprView>::empty(), position + 1))
                } else {
                    arguments_at(tokens, position + 1, Seq::empty())
                };
                match list {
                    Ok((arguments, close)) => match expect_at(tokens, close, Delimiter::RParen) {
                        Ok((_, end)) => Ok(
                            (ExprView::Call { callee: Box::new(left), arguments }, end),
                        ),
                        Err(error) => Err(error),
                    },
                    Err(error) => Err(error),
                }
            },
            Token::Delimiter(Delimiter::LBrack) => match expression_at(
                tokens,
                position + 1,
                Precedence::Lowest.binding_power().1,
            ) {
                Ok((index, close)) => match expect_at(tokens, close, Delimiter::RBrack) {
                    Ok((_, end)) => Ok(
                        (ExprView::Get { target: Box::new(left), index: Box::new(index) }, end),
                    ),
                    Err(error) => Err(error),
                },
                Err(error) => Err(error),
            },
            Token::Delimiter(Delimiter::QMark) => match expression_at(
                tokens,
                position + 1,
                Precedence::Ternary.operand_limit(),
            ) {
                Ok((then_branch, colon)) => match expect_at(tokens, colon, Delimiter::Colon) {
                    Ok((_, next)) => if advanced(tokens, position, next) {
                        match expression_at(
                            tokens,
                            next,
                            Precedence::Ternary.operand_limit(),
                        ) {
                            Ok((else_branch, end)) => Ok(
                                (
                                    ExprView::Ternary {
                                        condition: Box::new(left),
                                        then_branch: Box::new(then_branch),
                                        else_branch: Box::new(else_branch),
                                    },
                                    end,
                                ),
                            ),
                            Err(error) => Err(error),
                        }
                    } else {
                        Err(ParseError::UnexpectedEOF)
                    },
                    Err(error) => Err(error),
                },
                Err(error) => Err(error),
            },
            _ => Err(ParseError::UnknownToken(operator)),
        }
    }
}

/// Whether a parser that returned `result` and stands at `position` did what
/// the outcome `rule` of a grammar rule says.
pub open spec fn yields_expr(result: Result<Expr, ParseError>, position: usize, rule: Parsed<ExprView>) -> bool {
    match rule {
        Ok((expr, end)) => result matches Ok(e) && e.view() == expr && position == end,
        Err(error) => result == Err::<Expr, ParseError>(error),
    }
}

impl<'a> Parser<'a> {
    /// Whether an expression denotes a storage location.
    pub(crate) fn is_lvalue(&self, expr: &Expr) -> (lvalue: bool)
        ensures
            lvalue == expr.view().is_lvalue(),
    {
        match expr {
            Expr::Variable { .. } => true,
            Expr::Get { .. } => true,
            Expr::Unary { operator, .. } => matches!(operator.token, Token::Operator(Operator::Star)),
            _ => false,
        }
    }

    /// Parses a primary: what starts an expression and has no operand before
    /// it.
    pub(crate) fn nud(&mut self) -> (result: Result<Expr, ParseError>)
        ensures
            final(self).tokens == old(self).tokens,
            yields_expr(
                result,
                final(self).position,
                primary_at(old(self).tokens@, old(self).position as int),
            ),
            result is Ok ==> advanced(old(self).tokens@, old(self).position as int, final(self).position as int),
            result matches Ok(e) ==> e.view().well_formed(),
        decreases old(self).tokens@.len() - old(self).position, 0nat,
    {
        if self.is_at_end() {
            return Err(ParseError::UnexpectedEOF);
        }
        let t = self.advance();
        match &t.token {
            Token::Integer(_) | Token::CharLiteral(_) | Token::StringLiteral(_) => Ok(
                Expr::Literal { value: t.clone() },
            ),
            Token::Identifier(_) => Ok(Expr::Variable { name: t.clone() }),
            Token::Operator(Operator::Plus)
            | Token::Operator(Operator::Minus)
            | Token::Operator(Operator::Bang)
            | Token::Operator(Operator::Tilde)
            | Token::Operator(Operator::Inc)
            | Token::Operator(Operator::Dec)
            | Token::Operator(Operator::Amp)
            | Token::Operator(Operator::Star) => {
                let right = self.parse_expression(Precedence::Unary.bp().1)?;
                Ok(Expr::Unary { operator: t.clone(), right: Box::new(right) })
            },
            Token::Delimiter(Delimiter::LParen) => {
                let inner = self.parse_expression(Precedence::Lowest.bp().1)?;
                self.expect(Delimiter::RParen)?;
                Ok(Expr::Grouping { expression: Box::new(inner) })
            },
            _ => Err(ParseError::UnknownToken(t.clone())),
        }
    }

    /// Parses the arguments of a call: expressions separated by commas.
    pub(crate) fn arguments(&mut self) -> (result: Result<Vec<Box<Expr>>, ParseError>)
        ensures
            final(self).tokens == old(self).tokens,
            match arguments_at(old(self).tokens@, old(self).position as int, Seq::empty()) {
                Ok((arguments, end)) => result matches Ok(list) && expr_views(list@) == arguments
                    && final(self).position == end,
                Err(error) => result == Err::<Vec<Box<Expr>>, ParseError>(error),
            },
            result is Ok ==> advanced(
                old(self).tokens@,
                old(self).position as int,
                final(self).position as int,
            ),
            result matches Ok(list) ==> forall|i: int|
                0 <= i < list@.len() ==> (#[trigger] list@[i]).view().well_formed(),
        decreases old(self).tokens@.len() - old(self).position, 4nat,
    {
        let mut args: Vec<Box<Expr>> = Vec::new();
        assert(expr_views(args@) =~= Seq::empty());
        loop
            invariant_except_break
                arguments_at(old(self).tokens@, old(self).position as int, Seq::empty())
                    == arguments_at(self.tokens@, self.position as int, expr_views(args@)),
            invariant
                self.tokens == old(self).tokens,
                self.position == old(self).position || advanced(
                    self.tokens@,
                    old(self).position as int,
                    self.position as int,
                ),
                forall|i: int|
                    0 <= i < args@.len() ==> (#[trigger] args@[i]).view().well_formed(),
            ensures
                arguments_at(old(self).tokens@, old(self).position as int, Seq::empty()) == Ok::<
                    (Seq<ExprView>, int),
                    ParseError,
                >((expr_views(args@), self.position as int)),
                advanced(old(self).tokens@, old(self).position as int, self.position as int),
            decreases self.tokens@.len() - self.position,
        {
            let ghost before = expr_views(args@);
            let arg = self.parse_expression(Precedence::Lowest.bp().1)?;
            let ghost argument = arg.view();
            args.push(Box::new(arg));
            assert(expr_views(args@) =~= before.push(argument));
            if self.delimiter_ahead(Delimiter::Comma) {
                self.advance();
            } else {
                break ;
            }
        }
        Ok(args)
    }

    /// Parses the operator under the cursor and what it governs, with the
    /// operand `left` before it.
    pub(crate) fn led(&mut self, left: Expr) -> (result: Result<Expr, ParseError>)
        requires
            left.view().well_formed(),
        ensures
            final(self).tokens == old(self).tokens,
            yields_expr(
                result,
                final(self).position,
                operator_at(old(self).tokens@, old(self).position as int, left.view()),
            ),
            result is Ok ==> advanced(old(self).tokens@, old(self).position as int, final(self).position as int),
            result matches Ok(e) ==> e.view().well_formed(),
        decreases old(self).tokens@.len() - old(self).position, 1nat,
    {
        if self.is_at_end() {
            return Err(ParseError::UnexpectedEOF);
        }
        let op = self.advance().clone();
        match &op.token {
            Token::Operator(Operator::Inc) | Token::Operator(Operator::Dec) => Ok(
                Expr::Postfix { left: Box::new(left), operator: op },
            ),
            Token::Delimiter(t) => {
                match t {
                    Delimiter::LParen => {
                        let args = if self.delimiter_ahead(Delimiter::RParen) {
                            Vec::new()
                        } else {
                            self.arguments()?
                        };
                        assert(args@.len() == 0 ==> expr_views(args@) =~= Seq::empty());
                        self.expect(Delimiter::RParen)?;
                        let call = Expr::Call { callee: Box::new(left), arguments: args };
                        assert(call.view()->Call_arguments =~= expr_views(args@));
                        Ok(call)
                    },
                    Delimiter::LBrack => {
                        let index = self.parse_expression(Precedence::Lowest.bp().1)?;
                        self.expect(Delimiter::RBrack)?;
                        Ok(Expr::Get { target: Box::new(left), index: Box::new(index) })
                    },
                    Delimiter::QMark => {
                        let then_branch = self.parse_expression(Precedence::Ternary.limit())?;
                        self.expect(Delimiter::Colon)?;
                        let else_branch = self.parse_expression(Precedence::Ternary.limit())?;
                        Ok(
                            Expr::Ternary {
                                condition: Box::new(left),
                                then_branch: Box::new(then_branch),
                                else_branch: Box::new(else_branch),
                            },
                        )
                    },
                    _ => Err(ParseError::UnknownToken(op)),
                }
            },
            Token::Operator(t) => {
                let limit = self.get_precedence(&op.token).limit();
                let right = self.parse_expression(limit)?;
                match t {
                    Operator::Plus
                    | Operator::Minus
                    | Operator::Star
                    | Operator::Slash
                    | Operator::Percent
                    | Operator::Equal
                    | Operator::NotEqual
                    | Operator::Less
                    | Operator::LessEq
                    | Operator::Greater
                    | Operator::GreaterEq => Ok(
                        Expr::Binary { left: Box::new(left), operator: op, right: Box::new(right) },
                    ),
                    Operator::Amp
                    | Operator::Bar
                    | Operator::Caret
                    | Operator::LShift
                    | Operator::RShift
                    | Operator::Tilde => Ok(
                        Expr::Bitwise { left: Box::new(left), operator: op, right: Box::new(right) },
                    ),
                    Operator::Assign
                    | Operator::AssignAmp
                    | Operator::AssignMinus
                    | Operator::AssignPercent
                    | Operator::AssignPlus
                    | Operator::AssignSlash
                    | Operator::AssignStar => {
                        if self.is_lvalue(&left) {
                            return Ok(
                                Expr::Assign {
                                    lvalue: Box::new(left),
                                    operator: op,
                                    value: Box::new(right),
                                },
                            );
                        }
                        Err(ParseError::RValueAssign(op))
                    },
                    _ => Err(ParseError::UnknownToken(op)),
                }
            },
            _ => Err(ParseError::UnknownToken(op)),
        }
    }

    /// Parses an expression under the limit `min_prec`: a primary, and every
    /// operator after it whose left binding power exceeds the limit, each
    /// with what it governs.
    ///
    /// The cursor ends on the first token that is not part of the expression.
    /// The result is well formed: in particular, the left operand of every
    /// assignment in it is an lvalue.
    pub fn parse_expression(&mut self, min_prec: u8) -> (result: Result<Expr, ParseError>)
        ensures
            final(self).tokens == old(self).tokens,
            yields_expr(
                result,
                final(self).position,
                expression_at(old(self).tokens@, old(self).position as int, min_prec),
            ),
            result is Ok ==> advanced(old(self).tokens@, old(self).position as int, final(self).position as int),
            result matches Ok(e) ==> e.view().well_formed(),
        decreases old(self).tokens@.len() - old(self).position, 3nat,
    {
        let mut left = self.nud()?;
        while self.peek_precedence().bp().0 > min_prec
            invariant
                self.tokens == old(self).tokens,
                advanced(self.tokens@, old(self).position as int, self.position as int),
                left.view().well_formed(),
                expression_at(old(self).tokens@, old(self).position as int, min_prec)
                    == continued_at(self.tokens@, self.position as int, left.view(), min_prec),
            decreases self.tokens@.len() - self.position,
        {
            left = self.led(left)?;
        }
        Ok(left)
    }
}

} // verus!
