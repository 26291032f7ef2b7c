//! The statement grammar and the grammar of a program: recursive descent over
//! the same cursor as the expression grammar.

use vstd::prelude::*;
use crate::ast::{
    global_views, stmt_views, top_level_views, AutoDecl, ExprView, Function, FunctionView,
    GlobalDecl, GlobalDeclView, Program, ProgramView, Stmt, StmtView, TopLevel, TopLevelView,
};
use crate::lexer::token::{Delimiter, Keyword, SpannedToken, Token};
use crate::parser::expr::expression_at;
use crate::parser::{
    advanced, at_end, delimiter_at, expect_at, token_at, Expected, ParseError, Parsed, Parser,
};

verus! {

/// The rule that requires a name: it reads the token at `position` if that is
/// an identifier.
pub open spec fn identifier_at(tokens: Seq<SpannedToken>, position: int) -> Parsed<SpannedToken> {
    let token = token_at(tokens, position);
    if at_end(tokens, position) {
        Err(ParseError::UnexpectedEOF)
    } else if token.token is Identifier {
        Ok((token, position + 1))
    } else {
        Err(ParseError::UnknownToken(token))
    }
}

/// The rule that requires a literal: it reads the token at `position` if that
/// is an integer, a character or a string literal.
pub open spec fn literal_at(tokens: Seq<SpannedToken>, position: int) -> Parsed<SpannedToken> {
    let token = token_at(tokens, position);
    if at_end(tokens, position) {
        Err(ParseError::UnexpectedEOF)
    } else if token.token.is_literal() {
        Ok((token, position + 1))
    } else {
        Err(ParseError::UnknownToken(token))
    }
}

/// The rule for a list of names from `position` on, after the names in
/// `read`: identifiers separated by commas.
pub open spec fn names_at(tokens: Seq<SpannedToken>, position: int, read: Seq<SpannedToken>) -> Parsed<
    Seq<SpannedToken>,
>
    decreases tokens.len() - position,
{
    match identifier_at(tokens, position) {
        Ok((name, next)) => if delimiter_at(tokens, next, Delimiter::Comma) {
            names_at(tokens, next + 1, read.push(name))
        } else {
            Ok((read.push(name), next))
        },
        Err(error) => Err(error),
    }
}

/// The rule for the size of a vector, with the `[` at `position`: an integer
/// or nothing, in brackets.
pub open spec fn size_at(tokens: Seq<SpannedToken>, position: int) -> Parsed<Option<SpannedToken>> {
    let size = token_at(tokens, position + 1);
    if size.token is Integer {
        match expect_at(tokens, position + 2, Delimiter::RBrack) {
            Ok((_, end)) => Ok((Some(size), end)),
            Err(error) => Err(error),
        }
    } else {
        match expect_at(tokens, position + 1, Delimiter::RBrack) {
            Ok((_, end)) => Ok((None, end)),
            Err(error) => Err(error),
        }
    }
}

/// The rule for the rest of a run of initializers, from `position` on, after
/// the literals in `read`. The run goes on over each comma that a literal
/// follows; it ends before a `;`, and before a comma that an identifier
/// follows, which starts the next declaration.
pub open spec fn initializers_at(
    tokens: Seq<SpannedToken>,
    position: int,
    read: Seq<SpannedToken>,
) -> Parsed<Seq<SpannedToken>>
    decreases tokens.len() - position,
{
    let token = token_at(tokens, position);
    if token.token == Token::Delimiter(Delimiter::Comma) {
        let next = token_at(tokens, position + 1);
        if next.token is Identifier {
            Ok((read, position))
        } else if next.token.is_literal() {
            initializers_at(tokens, position + 2, read.push(next))
        } else {
            Err(ParseError::UnknownToken(next))
        }
    } else if token.token == Token::Delimiter(Delimiter::Semicolon) {
        Ok((read, position))
    } else {
        Err(ParseError::UnknownToken(token))
    }
}

/// The rule for what follows the name of a global declaration, from
/// `position` on: nothing, one literal, or a size in brackets and then
/// nothing or a run of initializers. The `;` or `,` after the declaration is
/// not read.
pub open spec fn declaration_at(tokens: Seq<SpannedToken>, position: int, name: SpannedToken) -> Parsed<
    GlobalDeclView,
> {
    let token = token_at(tokens, position);
    if token.token == Token::Delimiter(Delimiter::LBrack) {
        match size_at(tokens, position) {
            Ok((size, next)) => {
                let first = token_at(tokens, next);
                if first.token.is_literal() {
                    if size is None {
                        Err(ParseError::UnspecifiedArraySizeInitialization(first))
                    } else {
                        match initializers_at(tokens, next + 1, seq![first]) {
                            Ok((list, end)) => Ok(
                                (GlobalDeclView { name, size, initializer: Some(list) }, end),
                            ),
                            Err(error) => Err(error),
                        }
                    }
                } else if first.token == Token::Delimiter(Delimiter::Semicolon) || first.token
                    == Token::Delimiter(Delimiter::Comma) {
                    Ok((GlobalDeclView { name, size, initializer: None }, next))
                } else {
                    Err(ParseError::UnknownToken(first))
                }
            },
            Err(error) => Err(error),
        }
    } else if token.token.is_literal() {
        Ok((GlobalDeclView { name, size: None, initializer: Some(seq![token]) }, position + 1))
    } else if token.token == Token::Delimiter(Delimiter::Semicolon) || token.token
        == Token::Delimiter(Delimiter::Comma) {
        Ok((GlobalDeclView { name, size: None, initializer: None }, position))
    } else {
        Err(ParseError::UnknownToken(token))
    }
}

/// The rule for a list of global declarations, from `position` on, which is
/// after the name `name`, and after the declarations in `read`: declarations
/// separated by commas, and a `;` at the end.
pub open spec fn declarations_at(
    tokens: Seq<SpannedToken>,
    position: int,
    name: SpannedToken,
    read: Seq<GlobalDeclView>,
) -> Parsed<Seq<GlobalDeclView>>
    decreases tokens.len() - position,
{
    match declaration_at(tokens, position, name) {
        Ok((decl, next)) => if position <= next <= tokens.len() {
            if delimiter_at(tokens, next, Delimiter::Comma) {
                match identifier_at(tokens, next + 1) {
                    Ok((another, after)) => declarations_at(
                        tokens,
                        after,
                        another,
                        read.push(decl),
                    ),
                    Err(error) => Err(error),
                }
            } else {
                match expect_at(tokens, next, Delimiter::Semicolon) {
                    Ok((_, end)) => Ok((read.push(decl), end)),
                    Err(error) => Err(error),
                }
            }
        } else {
            Err(ParseError::UnexpectedEOF)
        },
        Err(error) => Err(error),
    }
}

/// The rule for the declarations of an `auto` statement, from `position` on,
/// after the declarations in `read`: names, each with or without a size in
/// brackets, separated by commas, and a `;` at the end.
pub open spec fn auto_declarations_at(
    tokens: Seq<SpannedToken>,
    position: int,
    read: Seq<AutoDecl>,
) -> Parsed<StmtView>
    decreases tokens.len() - position,
{
    match identifier_at(tokens, position) {
        Ok((name, next)) => {
            let sized = if delimiter_at(tokens, next, Delimiter::LBrack) {
                size_at(tokens, next)
            } else {
                Ok((None, next))
            };
            match sized {
                Ok((size, after)) => if advanced(tokens, position, after) {
                    let declarations = read.push(AutoDecl { name, size });
                    if delimiter_at(tokens, after, Delimiter::Comma) {
                        auto_declarations_at(tokens, after + 1, declarations)
                    } else {
                        match expect_at(tokens, after, Delimiter::Semicolon) {
                            Ok((_, end)) => Ok((StmtView::Auto { declarations }, end)),
                            Err(error) => Err(error),
                        }
                    }
                } else {
                    Err(ParseError::UnexpectedEOF)
                },
                Err(error) => Err(error),
            }
        },
        Err(error) => Err(error),
    }
}

/// The rule for an `auto` statement, with the keyword at `position`.
pub open spec fn auto_at(tokens: Seq<SpannedToken>, position: int) -> Parsed<StmtView> {
    let found = token_at(tokens, position);
    if found.token == Token::Keyword(Keyword::Auto) {
        auto_declarations_at(tokens, position + 1, Seq::empty())
    } else {
        Err(
            ParseError::UnexpectedToken(
                Expected { expected: Token::Keyword(Keyword::Auto), found },
            ),
        )
    }
}

/// The rule for an `extrn` statement, from `position` on, which is after the
/// keyword: names separated by commas, and a `;`.
pub open spec fn extrn_at(tokens: Seq<SpannedToken>, position: int) -> Parsed<StmtView> {
    match names_at(tokens, position, Seq::empty()) {
        Ok((names, next)) => match expect_at(tokens, next, Delimiter::Semicolon) {
            Ok((_, end)) => Ok((StmtView::Extrn { names }, end)),
            Err(error) => Err(error),
        },
        Err(error) => Err(error),
    }
}

/// The rule for a `goto` statement, from `position` on, which is after the
/// keyword: an expression and a `;`.
pub open spec fn goto_at(tokens: Seq<SpannedToken>, position: int) -> Parsed<StmtView> {
    match expression_at(tokens, position, 0) {
        Ok((expression, next)) => match expect_at(tokens, next, Delimiter::Semicolon) {
            Ok((_, end)) => Ok((StmtView::Goto { expression }, end)),
            Err(error) => Err(error),
        },
        Err(error) => Err(error),
    }
}

/// The rule for a `return` statement, from `position` on, which is after the
/// keyword: a `;`, or an expression and a `;`.
pub open spec fn return_at(tokens: Seq<SpannedToken>, position: int) -> Parsed<StmtView> {
    if delimiter_at(tokens, position, Delimiter::Semicolon) {
        Ok((StmtView::Return { value: None }, position + 1))
    } else {
        match expression_at(tokens, position, 0) {
            Ok((value, next)) => match expect_at(tokens, next, Delimiter::Semicolon) {
                Ok((_, end)) => Ok((StmtView::Return { value: Some(value) }, end)),
                Err(error) => Err(error),
            },
            Err(error) => Err(error),
        }
    }
}

/// The rule for a condition in parentheses, with the `(` required at
/// `position`.
pub open spec fn condition_at(tokens: Seq<SpannedToken>, position: int) -> Parsed<ExprView> {
    match expect_at(tokens, position, Delimiter::LParen) {
        Ok((_, start)) => match expression_at(tokens, start, 0) {
            Ok((condition, close)) => match expect_at(tokens, close, Delimiter::RParen) {
                Ok((_, end)) => Ok((condition, end)),
                Err(error) => Err(error),
            },
            Err(error) => Err(error),
        },
        Err(error) => Err(error),
    }
}

/// The rule for a statement at `position`. The first token decides: `;` is
/// the empty statement, `{` opens a block, a keyword starts its statement, a
/// name before a `:` is a label, and anything else starts an expression that
/// a `;` must follow.
pub open spec fn statement_at(tokens: Seq<SpannedToken>, position: int) -> Parsed<StmtView>
    decreases tokens.len() - position, 1nat,
{
    let first = token_at(tokens, position);
    match first.token {
        Token::Delimiter(Delimiter::Semicolon) => Ok((StmtView::Null, position + 1)),
        Token::Delimiter(Delimiter::LBrace) => block_at(tokens, position),
        Token::Keyword(Keyword::Extrn) => extrn_at(tokens, position + 1),
        Token::Keyword(Keyword::If) => if_at(tokens, position + 1),
        Token::Keyword(Keyword::While) => while_at(tokens, position + 1),
        Token::Keyword(Keyword::Switch) => switch_at(tokens, position + 1),
        Token::Keyword(Keyword::Case) => case_at(tokens, position + 1),
        Token::Keyword(Keyword::Goto) => goto_at(tokens, position + 1),
        Token::Keyword(Keyword::Return) => return_at(tokens, position + 1),
        _ => if first.token is Identifier && delimiter_at(tokens, position + 1, Delimiter::Colon) {
            match statement_at(tokens, position + 2) {
                Ok((body, end)) => Ok((StmtView::Label { name: first, body: Box::new(body) }, end)),
                Err(error) => Err(error),
            }
        } else {
            match expression_at(tokens, position, 0) {
                Ok((expression, next)) => match expect_at(tokens, next, Delimiter::Semicolon) {
                    Ok((_, end)) => Ok((StmtView::Expression { expression }, end)),
                    Err(error) => Err(error),
                },
                Err(error) => Err(error),
            }
        },
    }
}

/// The rule for a block, with the `{` required at `position`: statements up
/// to the matching `}`.
pub open spec fn block_at(tokens: Seq<SpannedToken>, position: int) -> Parsed<StmtView>
    decreases tokens.len() - position, 0nat,
{
    match expect_at(tokens, position, Delimiter::LBrace) {
        Ok((_, start)) => if advanced(tokens, position, start) {
            block_items_at(tokens, start, Seq::empty(), true)
        } else {
            Err(ParseError::UnexpectedEOF)
        },
        Err(error) => Err(error),
    }
}

/// The rule for the rest of a block, from `position` on, after the statements
/// in `read`; `first` tells whether none was read yet. An `auto` statement
/// may only stand first.
pub open spec fn block_items_at(
    tokens: Seq<SpannedToken>,
    position: int,
    read: Seq<StmtView>,
    first: bool,
) -> Parsed<StmtView>
    decreases tokens.len() - position, 2nat,
{
    let token = token_at(tokens, position);
    if token.token == Token::Delimiter(Delimiter::RBrace) {
        Ok((StmtView::Block { statements: read }, position + 1))
    } else if token.token == Token::Keyword(Keyword::Auto) && !first {
        Err(ParseError::AutoRedecl(token))
    } else {
        let item = if token.token == Token::Keyword(Keyword::Auto) {
            auto_at(tokens, position)
        } else {
            statement_at(tokens, position)
        };
        match item {
            Ok((statement, next)) => if advanced(tokens, position, next) {
                block_items_at(tokens, next, read.push(statement), false)
            } else {
                Err(ParseError::UnexpectedEOF)
            },
            Err(error) => Err(error),
        }
    }
}

/// The rule for an `if` statement, from `position` on, which is after the
/// keyword: a condition in parentheses, a statement, and, where `else`
/// follows, another statement. An `else` belongs to the nearest `if`.
pub open spec fn if_at(tokens: Seq<SpannedToken>, position: int) -> Parsed<StmtView>
    decreases tokens.len() - position, 3nat,
{
    match condition_at(tokens, position) {
        Ok((condition, start)) => if advanced(tokens, position, start) {
            match statement_at(tokens, start) {
                Ok((then_branch, next)) => if token_at(tokens, next).token == Token::Keyword(
                    Keyword::Else,
                ) {
                    if advanced(tokens, position, next) {
                        match statement_at(tokens, next + 1) {
                            Ok((else_branch, end)) => Ok(
                                (
                                    StmtView::If {
                                        condition,
                                        then_branch: Box::new(then_branch),
                                        else_branch: Some(Box::new(else_branch)),
                                    },
                                    end,
                                ),
                            ),
                            Err(error) => Err(error),
                        }
                    } else {
                        Err(ParseError::UnexpectedEOF)
                    }
                } else {
                    Ok(
                        (
                            StmtView::If {
                                condition,
                                then_branch: Box::new(then_branch),
                                else_branch: None,
                            },
                            next,
                        ),
                    )
                },
                Err(error) => Err(error),
            }
        } else {
            Err(ParseError::UnexpectedEOF)
        },
        Err(error) => Err(error),
    }
}

/// The rule for a `while` statement, from `position` on, which is after the
/// keyword: a condition in parentheses and a statement.
pub open spec fn while_at(tokens: Seq<SpannedToken>, position: int) -> Parsed<StmtView>
    decreases tokens.len() - position, 3nat,
{
    match condition_at(tokens, position) {
        Ok((condition, start)) => if advanced(tokens, position, start) {
            match statement_at(tokens, start) {
                Ok((body, end)) => Ok((StmtView::While { condition, body: Box::new(body) }, end)),
                Err(error) => Err(error),
            }
        } else {
            Err(ParseError::UnexpectedEOF)
        },
        Err(error) => Err(error),
    }
}

/// The rule for a `case`, from `position` on, which is after the keyword: a
/// literal and a statement.
pub open spec fn case_at(tokens: Seq<SpannedToken>, position: int) -> Parsed<StmtView>
    decreases tokens.len() - position, 3nat,
{
    match literal_at(tokens, position) {
        Ok((value, start)) => match statement_at(tokens, start) {
            Ok((body, end)) => Ok((StmtView::Case { value, body: Box::new(body) }, end)),
            Err(error) => Err(error),
        },
        Err(error) => Err(error),
    }
}

/// The rule for a `switch` statement, from `position` on, which is after the
/// keyword: an expression and the cases in braces.
pub open spec fn switch_at(tokens: Seq<SpannedToken>, position: int) -> Parsed<StmtView>
    decreases tokens.len() - position, 3nat,
{
    match expression_at(tokens, position, 0) {
        Ok((condition, open)) => match expect_at(tokens, open, Delimiter::LBrace) {
            Ok((_, start)) => if advanced(tokens, position, start) {
                match switch_cases_at(tokens, start, Seq::empty()) {
                    Ok((cases, end)) => Ok((StmtView::Switch { condition, cases }, end)),
                    Err(error) => Err(error),
                }
            } else {
                Err(ParseError::UnexpectedEOF)
            },
            Err(error) => Err(error),
        },
        Err(error) => Err(error),
    }
}

/// The rule for the rest of the body of a `switch`, from `position` on, after
/// the cases in `read`: each element is a `case` or `default` with its
/// statement, up to the `}`.
pub open spec fn switch_cases_at(
    tokens: Seq<SpannedToken>,
    position: int,
    read: Seq<StmtView>,
) -> Parsed<Seq<StmtView>>
    decreases tokens.len() - position, 4nat,
{
    let token = token_at(tokens, position);
    if token.token == Token::Delimiter(Delimiter::RBrace) {
        Ok((read, position + 1))
    } else if token.token == Token::Keyword(Keyword::Case) {
        match case_at(tokens, position + 1) {
            Ok((case, next)) => if advanced(tokens, position, next) {
                switch_cases_at(tokens, next, read.push(case))
            } else {
                Err(ParseError::UnexpectedEOF)
            },
            Err(error) => Err(error),
        }
    } else if token.token == Token::Keyword(Keyword::Default) {
        match statement_at(tokens, position + 1) {
            Ok((body, next)) => if advanced(tokens, position, next) {
                switch_cases_at(
                    tokens,
                    next,
                    read.push(StmtView::Default { body: Box::new(body) }),
                )
            } else {
                Err(ParseError::UnexpectedEOF)
            },
            Err(error) => Err(error),
        }
    } else {
        Err(ParseError::UnknownToken(token))
    }
}

/// The rule for an item of a program at `position`: a function, which is a
/// name, its parameters in parentheses and a block; or a list of global
/// declarations.
pub open spec fn top_level_at(tokens: Seq<SpannedToken>, position: int) -> Parsed<TopLevelView> {
    match identifier_at(tokens, position) {
        Ok((name, next)) => if delimiter_at(tokens, next, Delimiter::LParen) {
            let list = if delimiter_at(tokens, next + 1, Delimiter::RParen) {
                Ok((Seq::<SpannedToken>::empty(), next + 1))
            } else {
                names_at(tokens, next + 1, Seq::empty())
            };
            match list {
                Ok((params, close)) => match expect_at(tokens, close, Delimiter::RParen) {
                    Ok((_, start)) => match block_at(tokens, start) {
                        Ok((body, end)) => Ok(
                            (TopLevelView::Function(FunctionView { name, params, body }), end),
                        ),
                        Err(error) => Err(error),
                    },
                    Err(error) => Err(error),
                },
                Err(error) => Err(error),
            }
        } else {
            match declarations_at(tokens, next, name, Seq::empty()) {
                Ok((decls, end)) => Ok((TopLevelView::Global(decls), end)),
                Err(error) => Err(error),
            }
        },
        Err(error) => Err(error),
    }
}

/// The rule for the rest of a program, from `position` on, after the items in
/// `read`: items up to the end-of-input marker.
pub open spec fn program_at(tokens: Seq<SpannedToken>, position: int, read: Seq<TopLevelView>) -> Parsed<
    ProgramView,
>
    decreases tokens.len() - position,
{
    if at_end(tokens, position) {
        Ok((ProgramView { top_level: read }, position))
    } else {
        match top_level_at(tokens, position) {
            Ok((item, next)) => if advanced(tokens, position, next) {
                program_at(tokens, next, read.push(item))
            } else {
                Err(ParseError::UnexpectedEOF)
            },
            Err(error) => Err(error),
        }
    }
}

impl StmtView {
    /// Whether the statement keeps the rules of the tree: in every block an
    /// `auto` statement stands first or not at all, every expression is well
    /// formed, every name is an identifier, the size of a vector is an
    /// integer and the value of a `case` is a literal.
    pub open spec fn well_formed(self) -> bool
        decreases self,
    {
        match self {
            StmtView::Block { statements } => forall|i: int|
                0 <= i < statements.len() ==> (#[trigger] statements[i]).well_formed() && (i > 0
                    ==> !(statements[i] is Auto)),
            StmtView::Auto { declarations } => declarations.len() > 0 && forall|i: int|
                0 <= i < declarations.len() ==> is_sized_name(
                    (#[trigger] declarations[i]).name,
                    declarations[i].size,
                ),
            StmtView::Extrn { names } => names.len() > 0 && forall|i: int|
                0 <= i < names.len() ==> (#[trigger] names[i]).token is Identifier,
            StmtView::Expression { expression } => expression.well_formed(),
            StmtView::If { condition, then_branch, else_branch } => condition.well_formed()
                && then_branch.well_formed() && match else_branch {
                Some(stmt) => stmt.well_formed(),
                None => true,
            },
            StmtView::While { condition, body } => condition.well_formed()
                && body.well_formed(),
            StmtView::Switch { condition, cases } => condition.well_formed() && forall|
                i: int,
            | 0 <= i < cases.len() ==> (#[trigger] cases[i]).well_formed(),
            StmtView::Case { value, body } => value.token.is_literal() && body.well_formed(),
            StmtView::Default { body } => body.well_formed(),
            StmtView::Label { name, body } => name.token is Identifier && body.well_formed(),
            StmtView::Goto { expression } => expression.well_formed(),
            StmtView::Return { value } => match value {
                Some(expr) => expr.well_formed(),
                None => true,
            },
            StmtView::Null => true,
        }
    }
}

/// Whether a name with its size is an identifier with, if any, an integer.
pub open spec fn is_sized_name(name: SpannedToken, size: Option<SpannedToken>) -> bool {
    name.token is Identifier && (size matches Some(token) ==> token.token is Integer)
}

impl GlobalDeclView {
    /// Whether the declaration keeps the rules of the tree: its name is an
    /// identifier, its size an integer, its initializers are literals, at
    /// least one where there are any, and exactly one where it has no size.
    pub open spec fn well_formed(self) -> bool {
        &&& is_sized_name(self.name, self.size)
        &&& self.initializer matches Some(list) ==> {
            &&& list.len() > 0
            &&& self.size is None ==> list.len() == 1
            &&& forall|i: int| 0 <= i < list.len() ==> (#[trigger] list[i]).token.is_literal()
        }
    }
}

impl TopLevelView {
    /// Whether the item keeps the rules of the tree: the name and the
    /// parameters of a function are identifiers and its body is a block that
    /// is well formed; global declarations are at least one, each well
    /// formed.
    pub open spec fn well_formed(self) -> bool {
        match self {
            TopLevelView::Function(function) => {
                &&& function.name.token is Identifier
                &&& forall|i: int|
                    0 <= i < function.params.len() ==> (#[trigger] function.params[i]).token is Identifier
                &&& function.body is Block
                &&& function.body.well_formed()
            },
            TopLevelView::Global(decls) => decls.len() > 0 && forall|i: int|
                0 <= i < decls.len() ==> (#[trigger] decls[i]).well_formed(),
        }
    }
}

impl ProgramView {
    /// Whether every item of the program is well formed.
    pub open spec fn well_formed(self) -> bool {
        forall|i: int|
            0 <= i < self.top_level.len() ==> (#[trigger] self.top_level[i]).well_formed()
    }
}

/// Whether a parser that returned `result` and stands at `position` did what
/// the outcome `rule` of a grammar rule says.
pub open spec fn yields_stmt(result: Result<Stmt, ParseError>, position: usize, rule: Parsed<StmtView>) -> bool {
    match rule {
        Ok((stmt, end)) => result matches Ok(s) && s.view() == stmt && position == end,
        Err(error) => result == Err::<Stmt, ParseError>(error),
    }
}

/// Whether a parser that returned the token `result` and stands at `position`
/// did what the outcome `rule` of a grammar rule says.
pub open spec fn yields_token(
    result: Result<SpannedToken, ParseError>,
    position: usize,
    rule: Parsed<SpannedToken>,
) -> bool {
    match rule {
        Ok((token, end)) => result == Ok::<SpannedToken, ParseError>(token) && position == end,
        Err(error) => result == Err::<SpannedToken, ParseError>(error),
    }
}

/// Whether a parser that returned the tokens `result` and stands at `position`
/// did what the outcome `rule` of a grammar rule says.
pub open spec fn yields_tokens(
    result: Result<Vec<SpannedToken>, ParseError>,
    position: usize,
    rule: Parsed<Seq<SpannedToken>>,
) -> bool {
    match rule {
        Ok((tokens, end)) => result matches Ok(list) && list@ == tokens && position == end,
        Err(error) => result == Err::<Vec<SpannedToken>, ParseError>(error),
    }
}

impl<'a> Parser<'a> {
    /// Reads the name under the cursor.
    pub(crate) fn identifier(&mut self) -> (result: Result<SpannedToken, ParseError>)
        ensures
            final(self).tokens == old(self).tokens,
            yields_token(
                result,
                final(self).position,
                identifier_at(old(self).tokens@, old(self).position as int),
            ),
            result is Ok ==> advanced(
                old(self).tokens@,
                old(self).position as int,
                final(self).position as int,
            ),
    {
        if self.is_at_end() {
            return Err(ParseError::UnexpectedEOF);
        }
        let token = self.peek();
        match &token.token {
            Token::Identifier(_) => {
                self.advance();
                Ok(token.clone())
            },
            _ => Err(ParseError::UnknownToken(token.clone())),
        }
    }

    /// Reads the literal under the cursor.
    pub(crate) fn literal(&mut self) -> (result: Result<SpannedToken, ParseError>)
        ensures
            final(self).tokens == old(self).tokens,
            yields_token(
                result,
                final(self).position,
                literal_at(old(self).tokens@, old(self).position as int),
            ),
            result is Ok ==> advanced(
                old(self).tokens@,
                old(self).position as int,
                final(self).position as int,
            ),
    {
        if self.is_at_end() {
            return Err(ParseError::UnexpectedEOF);
        }
        let token = self.peek();
        if token.token.literal() {
            self.advance();
            Ok(token.clone())
        } else {
            Err(ParseError::UnknownToken(token.clone()))
        }
    }

    /// Reads a list of names separated by commas.
    pub(crate) fn names(&mut self) -> (result: Result<Vec<SpannedToken>, ParseError>)
        ensures
            final(self).tokens == old(self).tokens,
            yields_tokens(
                result,
                final(self).position,
                names_at(old(self).tokens@, old(self).position as int, Seq::empty()),
            ),
            result is Ok ==> advanced(
                old(self).tokens@,
                old(self).position as int,
                final(self).position as int,
            ),
            result matches Ok(list) ==> list@.len() > 0 && forall|i: int|
                0 <= i < list@.len() ==> (#[trigger] list@[i]).token is Identifier,
    {
        let mut names: Vec<SpannedToken> = Vec::new();
        loop
            invariant_except_break
                names_at(old(self).tokens@, old(self).position as int, Seq::empty()) == names_at(
                    self.tokens@,
                    self.position as int,
                    names@,
                ),
            invariant
                self.tokens == old(self).tokens,
                self.position == old(self).position || advanced(
                    self.tokens@,
                    old(self).position as int,
                    self.position as int,
                ),
                forall|i: int| 0 <= i < names@.len() ==> (#[trigger] names@[i]).token is Identifier,
            ensures
                names_at(old(self).tokens@, old(self).position as int, Seq::empty()) == Ok::<
                    (Seq<SpannedToken>, int),
                    ParseError,
                >((names@, self.position as int)),
                advanced(old(self).tokens@, old(self).position as int, self.position as int),
                names@.len() > 0,
            decreases self.tokens@.len() - self.position,
        {
            let name = self.identifier()?;
            names.push(name);
            if self.delimiter_ahead(Delimiter::Comma) {
                self.advance();
            } else {
                break ;
            }
        }
        Ok(names)
    }

    /// Reads the size of a vector: the cursor is on the `[`.
    pub(crate) fn vector_size(&mut self) -> (result: Result<Option<SpannedToken>, ParseError>)
        requires
            delimiter_at(old(self).tokens@, old(self).position as int, Delimiter::LBrack),
        ensures
            final(self).tokens == old(self).tokens,
            match size_at(old(self).tokens@, old(self).position as int) {
                Ok((size, end)) => result == Ok::<Option<SpannedToken>, ParseError>(size)
                    && final(self).position == end,
                Err(error) => result == Err::<Option<SpannedToken>, ParseError>(error),
            },
            result is Ok ==> advanced(
                old(self).tokens@,
                old(self).position as int,
                final(self).position as int,
            ),
            result matches Ok(Some(size)) ==> size.token is Integer,
    {
        self.advance();
        let size = match &self.peek().token {
            Token::Integer(_) => Some(self.advance().clone()),
            _ => None,
        };
        self.expect(Delimiter::RBrack)?;
        Ok(size)
    }

    /// Reads the rest of a run of initializers: the cursor is after the
    /// literal `first`.
    pub(crate) fn initializers(&mut self, first: SpannedToken) -> (result: Result<
        Vec<SpannedToken>,
        ParseError,
    >)
        requires
            first.token.is_literal(),
        ensures
            result matches Ok(list) ==> list@.len() > 0 && forall|i: int|
                0 <= i < list@.len() ==> (#[trigger] list@[i]).token.is_literal(),
            final(self).tokens == old(self).tokens,
            yields_tokens(
                result,
                final(self).position,
                initializers_at(old(self).tokens@, old(self).position as int, seq![first]),
            ),
            result is Ok ==> old(self).position <= final(self).position <= old(self).tokens@.len(),
    {
        let mut list: Vec<SpannedToken> = Vec::new();
        list.push(first);
        assert(list@ =~= seq![first]);
        loop
            invariant_except_break
                initializers_at(old(self).tokens@, old(self).position as int, seq![first])
                    == initializers_at(self.tokens@, self.position as int, list@),
            invariant
                list@.len() > 0,
                forall|i: int| 0 <= i < list@.len() ==> (#[trigger] list@[i]).token.is_literal(),
                self.tokens == old(self).tokens,
                self.position == old(self).position || advanced(
                    self.tokens@,
                    old(self).position as int,
                    self.position as int,
                ),
            ensures
                initializers_at(old(self).tokens@, old(self).position as int, seq![first]) == Ok::<
                    (Seq<SpannedToken>, int),
                    ParseError,
                >((list@, self.position as int)),
                self.position < self.tokens@.len(),
            decreases self.tokens@.len() - self.position,
        {
            if self.delimiter_ahead(Delimiter::Comma) {
                match self.peek_next() {
                    Token::Identifier(_) => {
                        break ;
                    },
                    Token::Integer(_) | Token::CharLiteral(_) | Token::StringLiteral(_) => {
                        self.advance();
                        list.push(self.advance().clone());
                    },
                    _ => {
                        self.advance();
                        return Err(ParseError::UnknownToken(self.peek().clone()));
                    },
                }
            } else if self.delimiter_ahead(Delimiter::Semicolon) {
                break ;
            } else {
                return Err(ParseError::UnknownToken(self.peek().clone()));
            }
        }
        Ok(list)
    }

    /// Parses what follows the name of a global declaration: nothing, one
    /// literal, or a size in brackets and then nothing or a run of
    /// initializers. The `;` or `,` after the declaration is left under the
    /// cursor.
    pub(crate) fn parse_decl(&mut self, name: SpannedToken) -> (result: Result<GlobalDecl, ParseError>)
        requires
            name.token is Identifier,
        ensures
            result matches Ok(d) ==> d.view().well_formed(),
            final(self).tokens == old(self).tokens,
            match declaration_at(old(self).tokens@, old(self).position as int, name) {
                Ok((decl, end)) => result matches Ok(d) && d.view() == decl
                    && final(self).position == end,
                Err(error) => result == Err::<GlobalDecl, ParseError>(error),
            },
            result is Ok ==> old(self).position <= final(self).position <= old(self).tokens@.len(),
    {
        let token = self.peek();
        match &token.token {
            Token::Delimiter(Delimiter::LBrack) => {
                let array_size = self.vector_size()?;
                let first = self.peek();
                match &first.token {
                    Token::Integer(_) | Token::CharLiteral(_) | Token::StringLiteral(_) => {
                        if array_size.is_none() {
                            return Err(
                                ParseError::UnspecifiedArraySizeInitialization(first.clone()),
                            );
                        }
                        self.advance();
                        let initializer_list = self.initializers(first.clone())?;
                        Ok(
                            GlobalDecl {
                                name,
                                size: array_size,
                                initializer: Some(initializer_list),
                            },
                        )
                    },
                    Token::Delimiter(Delimiter::Semicolon) | Token::Delimiter(Delimiter::Comma) => {
                        Ok(GlobalDecl { name, size: array_size, initializer: None })
                    },
                    _ => Err(ParseError::UnknownToken(first.clone())),
                }
            },
            Token::Integer(_) | Token::CharLiteral(_) | Token::StringLiteral(_) => {
                let mut initializer: Vec<SpannedToken> = Vec::new();
                initializer.push(self.advance().clone());
                assert(initializer@ =~= seq![*token]);
                Ok(GlobalDecl { name, size: None, initializer: Some(initializer) })
            },
            Token::Delimiter(Delimiter::Semicolon) | Token::Delimiter(Delimiter::Comma) => {
                Ok(GlobalDecl { name, size: None, initializer: None })
            },
            _ => Err(ParseError::UnknownToken(token.clone())),
        }
    }

    /// Parses a list of global declarations: the cursor is after the name
    /// `first` of the first one.
    pub(crate) fn declarations(&mut self, first: SpannedToken) -> (result: Result<
        Vec<GlobalDecl>,
        ParseError,
    >)
        requires
            first.token is Identifier,
        ensures
            result matches Ok(list) ==> list@.len() > 0 && forall|i: int|
                0 <= i < list@.len() ==> (#[trigger] global_views(list@)[i]).well_formed(),
            final(self).tokens == old(self).tokens,
            match declarations_at(
                old(self).tokens@,
                old(self).position as int,
                first,
                Seq::empty(),
            ) {
                Ok((decls, end)) => result matches Ok(list) && global_views(list@) == decls
                    && final(self).position == end,
                Err(error) => result == Err::<Vec<GlobalDecl>, ParseError>(error),
            },
            result is Ok ==> advanced(
                old(self).tokens@,
                old(self).position as int,
                final(self).position as int,
            ),
    {
        let mut decls: Vec<GlobalDecl> = Vec::new();
        let mut name = first;
        assert(global_views(decls@) =~= Seq::empty());
        loop
            invariant_except_break
                declarations_at(old(self).tokens@, old(self).position as int, first, Seq::empty())
                    == declarations_at(
                    self.tokens@,
                    self.position as int,
                    name,
                    global_views(decls@),
                ),
                name.token is Identifier,
            invariant
                self.tokens == old(self).tokens,
                self.position == old(self).position || advanced(
                    self.tokens@,
                    old(self).position as int,
                    self.position as int,
                ),
                forall|i: int|
                    0 <= i < decls@.len() ==> (#[trigger] global_views(decls@)[i]).well_formed(),
            ensures
                decls@.len() > 0,
                old(self).position <= self.position <= self.tokens@.len(),
                !delimiter_at(self.tokens@, self.position as int, Delimiter::Comma),
                declarations_at(old(self).tokens@, old(self).position as int, first, Seq::empty())
                    == match expect_at(self.tokens@, self.position as int, Delimiter::Semicolon) {
                    Ok((_, end)) => Ok::<(Seq<GlobalDeclView>, int), ParseError>(
                        (global_views(decls@), end),
                    ),
                    Err(error) => Err(error),
                },
            decreases self.tokens@.len() - self.position,
        {
            let ghost before = global_views(decls@);
            let decl = self.parse_decl(name)?;
            let ghost view = decl.view();
            decls.push(decl);
            assert(global_views(decls@) =~= before.push(view));
            if self.delimiter_ahead(Delimiter::Comma) {
                self.advance();
                name = self.identifier()?;
            } else {
                break ;
            }
        }
        self.expect(Delimiter::Semicolon)?;
        Ok(decls)
    }

    /// Parses a program: items up to the end-of-input marker.
    ///
    /// The result holds the items in the order of the source. The first
    /// error ends the parse and is returned. The result is well formed, and
    /// where every name of the buffer is a word of the language, as the
    /// scanner yields them, every name of the result is one.
    pub fn parse_program(&mut self) -> (result: Result<Program, ParseError>)
        ensures
            final(self).tokens == old(self).tokens,
            match program_at(old(self).tokens@, old(self).position as int, Seq::empty()) {
                Ok((program, end)) => result matches Ok(p) && p.view() == program
                    && final(self).position == end,
                Err(error) => result == Err::<Program, ParseError>(error),
            },
            result is Ok ==> at_end(final(self).tokens@, final(self).position as int),
            result matches Ok(p) ==> p.view().well_formed(),
            result matches Ok(p) ==> (crate::parser::names::plain_buffer(old(self).tokens@)
                ==> p.view().is_readable()),
    {
        proof {
            if crate::parser::names::plain_buffer(self.tokens@) {
                crate::parser::names::lemma_program_names(
                    self.tokens@,
                    self.position as int,
                    Seq::empty(),
                );
            }
        }
        let mut tops: Vec<TopLevel> = Vec::new();
        assert(top_level_views(tops@) =~= Seq::empty());
        while !self.is_at_end()
            invariant
                self.tokens == old(self).tokens,
                program_at(old(self).tokens@, old(self).position as int, Seq::empty())
                    == program_at(self.tokens@, self.position as int, top_level_views(tops@)),
                forall|i: int|
                    0 <= i < tops@.len() ==> (#[trigger] top_level_views(tops@)[i]).well_formed(),
            decreases self.tokens@.len() - self.position,
        {
            let ghost before = top_level_views(tops@);
            let top = self.parse_top_level()?;
            let ghost view = top.view();
            tops.push(top);
            assert(top_level_views(tops@) =~= before.push(view));
        }
        Ok(Program { top_level: tops })
    }

    /// Parses an item of a program: a function or a list of global
    /// declarations.
    pub fn parse_top_level(&mut self) -> (result: Result<TopLevel, ParseError>)
        ensures
            final(self).tokens == old(self).tokens,
            match top_level_at(old(self).tokens@, old(self).position as int) {
                Ok((item, end)) => result matches Ok(t) && t.view() == item
                    && final(self).position == end,
                Err(error) => result == Err::<TopLevel, ParseError>(error),
            },
            result is Ok ==> advanced(
                old(self).tokens@,
                old(self).position as int,
                final(self).position as int,
            ),
            result matches Ok(t) ==> t.view().well_formed(),
    {
        let name = self.identifier()?;
        if self.delimiter_ahead(Delimiter::LParen) {
            self.advance();
            let params = if self.delimiter_ahead(Delimiter::RParen) {
                Vec::new()
            } else {
                self.names()?
            };
            self.expect(Delimiter::RParen)?;
            let body = self.parse_block()?;
            Ok(TopLevel::Function(Function { name, params, body }))
        } else {
            let decls = self.declarations(name)?;
            Ok(TopLevel::Global(decls))
        }
    }

    /// Parses a statement.
    ///
    /// The first token decides which: `;`, `{`, one of the keywords `extrn`,
    /// `if`, `while`, `switch`, `case`, `goto` and `return`, a name before a
    /// `:`, or else an expression, which a `;` must follow.
    pub fn parse_statement(&mut self) -> (result: Result<Stmt, ParseError>)
        ensures
            final(self).tokens == old(self).tokens,
            yields_stmt(
                result,
                final(self).position,
                statement_at(old(self).tokens@, old(self).position as int),
            ),
            result is Ok ==> advanced(
                old(self).tokens@,
                old(self).position as int,
                final(self).position as int,
            ),
            result matches Ok(s) ==> s.view().well_formed() && !(s.view() is Auto),
        decreases old(self).tokens@.len() - old(self).position, 1nat,
    {
        let t = self.peek();
        match &t.token {
            Token::Delimiter(Delimiter::Semicolon) => {
                self.advance();
                Ok(Stmt::Null)
            },
            Token::Delimiter(Delimiter::LBrace) => self.parse_block(),
            Token::Keyword(Keyword::Extrn) => {
                self.advance();
                self.parse_extrn()
            },
            Token::Keyword(Keyword::If) => {
                self.advance();
                self.parse_if()
            },
            Token::Keyword(Keyword::While) => {
                self.advance();
                self.parse_while()
            },
            Token::Keyword(Keyword::Switch) => {
                self.advance();
                self.parse_switch()
            },
            Token::Keyword(Keyword::Case) => {
                self.advance();
                self.parse_case()
            },
            Token::Keyword(Keyword::Goto) => {
                self.advance();
                self.parse_goto()
            },
            Token::Keyword(Keyword::Return) => {
                self.advance();
                self.parse_return()
            },
            Token::Identifier(_) => {
                if matches!(self.peek_next(), Token::Delimiter(Delimiter::Colon)) {
                    self.advance();
                    self.advance();
                    let body = self.parse_statement()?;
                    Ok(Stmt::Label { name: t.clone(), body: Box::new(body) })
                } else {
                    self.expression_statement()
                }
            },
            _ => self.expression_statement(),
        }
    }

    /// Parses an expression and the `;` after it.
    pub(crate) fn expression_statement(&mut self) -> (result: Result<Stmt, ParseError>)
        ensures
            final(self).tokens == old(self).tokens,
            yields_stmt(
                result,
                final(self).position,
                match expression_at(old(self).tokens@, old(self).position as int, 0) {
                    Ok((expression, next)) => match expect_at(
                        old(self).tokens@,
                        next,
                        Delimiter::Semicolon,
                    ) {
                        Ok((_, end)) => Ok((StmtView::Expression { expression }, end)),
                        Err(error) => Err(error),
                    },
                    Err(error) => Err(error),
                },
            ),
            result is Ok ==> advanced(
                old(self).tokens@,
                old(self).position as int,
                final(self).position as int,
            ),
            result matches Ok(s) ==> s.view().well_formed() && !(s.view() is Auto),
    {
        let expression = self.parse_expression(0)?;
        self.expect(Delimiter::Semicolon)?;
        Ok(Stmt::Expression { expression: Box::new(expression) })
    }

    /// Parses a block: a `{`, statements, and the matching `}`.
    ///
    /// An `auto` statement is accepted as the first statement only: a later
    /// one fails with `AutoRedecl`.
    pub fn parse_block(&mut self) -> (result: Result<Stmt, ParseError>)
        ensures
            final(self).tokens == old(self).tokens,
            yields_stmt(
                result,
                final(self).position,
                block_at(old(self).tokens@, old(self).position as int),
            ),
            result is Ok ==> advanced(
                old(self).tokens@,
                old(self).position as int,
                final(self).position as int,
            ),
            result matches Ok(s) ==> s.view().well_formed() && s.view() is Block,
        decreases old(self).tokens@.len() - old(self).position, 0nat,
    {
        self.expect(Delimiter::LBrace)?;
        let mut valid_auto_decl = true;
        let mut statements: Vec<Stmt> = Vec::new();
        assert(stmt_views(statements@) =~= Seq::empty());
        while !self.delimiter_ahead(Delimiter::RBrace)
            invariant
                self.tokens == old(self).tokens,
                advanced(self.tokens@, old(self).position as int, self.position as int),
                block_at(old(self).tokens@, old(self).position as int) == block_items_at(
                    self.tokens@,
                    self.position as int,
                    stmt_views(statements@),
                    valid_auto_decl,
                ),
                valid_auto_decl ==> statements@.len() == 0,
                forall|i: int|
                    0 <= i < statements@.len() ==> (#[trigger] stmt_views(
                        statements@,
                    )[i]).well_formed() && (i > 0 ==> !(stmt_views(statements@)[i] is Auto)),
            decreases self.tokens@.len() - self.position,
        {
            let ghost before = stmt_views(statements@);
            let statement = if self.keyword_ahead(Keyword::Auto) {
                if !valid_auto_decl {
                    return Err(ParseError::AutoRedecl(self.peek().clone()));
                }
                self.parse_auto()?
            } else {
                self.parse_statement()?
            };
            let ghost view = statement.view();
            valid_auto_decl = false;
            statements.push(statement);
            assert(stmt_views(statements@) =~= before.push(view));
        }
        self.expect(Delimiter::RBrace)?;
        let block = Stmt::Block { statements };
        assert(block.view()->Block_statements =~= stmt_views(statements@));
        Ok(block)
    }

    /// Parses an `auto` statement: the keyword, names separated by commas,
    /// each with or without a size in brackets, and a `;`.
    pub fn parse_auto(&mut self) -> (result: Result<Stmt, ParseError>)
        ensures
            final(self).tokens == old(self).tokens,
            yields_stmt(
                result,
                final(self).position,
                auto_at(old(self).tokens@, old(self).position as int),
            ),
            result is Ok ==> advanced(
                old(self).tokens@,
                old(self).position as int,
                final(self).position as int,
            ),
            result matches Ok(s) ==> s.view().well_formed() && s.view() is Auto,
    {
        if !self.keyword_ahead(Keyword::Auto) {
            return Err(
                ParseError::UnexpectedToken(
                    Expected {
                        expected: Token::Keyword(Keyword::Auto),
                        found: self.peek().clone(),
                    },
                ),
            );
        }
        self.advance();
        let mut decls: Vec<AutoDecl> = Vec::new();
        loop
            invariant_except_break
                auto_at(old(self).tokens@, old(self).position as int) == auto_declarations_at(
                    self.tokens@,
                    self.position as int,
                    decls@,
                ),
            invariant
                self.tokens == old(self).tokens,
                advanced(self.tokens@, old(self).position as int, self.position as int),
                forall|i: int|
                    0 <= i < decls@.len() ==> is_sized_name(
                        (#[trigger] decls@[i]).name,
                        decls@[i].size,
                    ),
            ensures
                decls@.len() > 0,
                advanced(self.tokens@, old(self).position as int, self.position as int),
                auto_at(old(self).tokens@, old(self).position as int) == match expect_at(
                    self.tokens@,
                    self.position as int,
                    Delimiter::Semicolon,
                ) {
                    Ok((_, end)) => Ok::<(StmtView, int), ParseError>(
                        (StmtView::Auto { declarations: decls@ }, end),
                    ),
                    Err(error) => Err(error),
                },
            decreases self.tokens@.len() - self.position,
        {
            let var = self.identifier()?;
            let size = if self.delimiter_ahead(Delimiter::LBrack) {
                self.vector_size()?
            } else {
                None
            };
            decls.push(AutoDecl { name: var, size });
            if self.delimiter_ahead(Delimiter::Comma) {
                self.advance();
            } else {
                break ;
            }
        }
        self.expect(Delimiter::Semicolon)?;
        Ok(Stmt::Auto { declarations: decls })
    }

    /// Parses an `extrn` statement, after its keyword: names separated by
    /// commas, and a `;`.
    pub fn parse_extrn(&mut self) -> (result: Result<Stmt, ParseError>)
        ensures
            final(self).tokens == old(self).tokens,
            yields_stmt(
                result,
                final(self).position,
                extrn_at(old(self).tokens@, old(self).position as int),
            ),
            result is Ok ==> advanced(
                old(self).tokens@,
                old(self).position as int,
                final(self).position as int,
            ),
            result matches Ok(s) ==> s.view().well_formed() && !(s.view() is Auto),
    {
        let decls = self.names()?;
        self.expect(Delimiter::Semicolon)?;
        Ok(Stmt::Extrn { names: decls })
    }

    /// Parses a condition in parentheses.
    pub(crate) fn condition(&mut self) -> (result: Result<crate::ast::Expr, ParseError>)
        ensures
            final(self).tokens == old(self).tokens,
            crate::parser::expr::yields_expr(
                result,
                final(self).position,
                condition_at(old(self).tokens@, old(self).position as int),
            ),
            result is Ok ==> advanced(
                old(self).tokens@,
                old(self).position as int,
                final(self).position as int,
            ),
            result matches Ok(e) ==> e.view().well_formed(),
    {
        self.expect(Delimiter::LParen)?;
        let condition = self.parse_expression(0)?;
        self.expect(Delimiter::RParen)?;
        Ok(condition)
    }

    /// Parses an `if` statement, after its keyword: a condition in
    /// parentheses, a statement, and, where `else` follows, another
    /// statement.
    pub fn parse_if(&mut self) -> (result: Result<Stmt, ParseError>)
        ensures
            final(self).tokens == old(self).tokens,
            yields_stmt(
                result,
                final(self).position,
                if_at(old(self).tokens@, old(self).position as int),
            ),
            result is Ok ==> advanced(
                old(self).tokens@,
                old(self).position as int,
                final(self).position as int,
            ),
            result matches Ok(s) ==> s.view().well_formed() && !(s.view() is Auto),
        decreases old(self).tokens@.len() - old(self).position, 3nat,
    {
        let condition = self.condition()?;
        let then_branch = self.parse_statement()?;
        if self.keyword_ahead(Keyword::Else) {
            self.advance();
            let else_branch = self.parse_statement()?;
            return Ok(
                Stmt::If {
                    condition: Box::new(condition),
                    then_branch: Box::new(then_branch),
                    else_branch: Some(Box::new(else_branch)),
                },
            );
        }
        Ok(
            Stmt::If {
                condition: Box::new(condition),
                then_branch: Box::new(then_branch),
                else_branch: None,
            },
        )
    }

    /// Parses a `while` statement, after its keyword: a condition in
    /// parentheses and a statement.
    pub fn parse_while(&mut self) -> (result: Result<Stmt, ParseError>)
        ensures
            final(self).tokens == old(self).tokens,
            yields_stmt(
                result,
                final(self).position,
                while_at(old(self).tokens@, old(self).position as int),
            ),
            result is Ok ==> advanced(
                old(self).tokens@,
                old(self).position as int,
                final(self).position as int,
            ),
            result matches Ok(s) ==> s.view().well_formed() && !(s.view() is Auto),
        decreases old(self).tokens@.len() - old(self).position, 3nat,
    {
        let condition = self.condition()?;
        let body = self.parse_statement()?;
        Ok(Stmt::While { condition: Box::new(condition), body: Box::new(body) })
    }

    /// Parses a `switch` statement, after its keyword: an expression, and in
    /// braces the cases, each a `case` with a literal and a statement or a
    /// `default` with a statement. Any other token between the braces fails
    /// with `UnknownToken`.
    pub fn parse_switch(&mut self) -> (result: Result<Stmt, ParseError>)
        ensures
            final(self).tokens == old(self).tokens,
            yields_stmt(
                result,
                final(self).position,
                switch_at(old(self).tokens@, old(self).position as int),
            ),
            result is Ok ==> advanced(
                old(self).tokens@,
                old(self).position as int,
                final(self).position as int,
            ),
            result matches Ok(s) ==> s.view().well_formed() && !(s.view() is Auto),
        decreases old(self).tokens@.len() - old(self).position, 3nat,
    {
        let mut cases: Vec<Stmt> = Vec::new();
        let condition = self.parse_expression(0)?;
        self.expect(Delimiter::LBrace)?;
        let ghost start = self.position as int;
        assert(stmt_views(cases@) =~= Seq::empty());
        loop
            invariant_except_break
                switch_cases_at(self.tokens@, start, Seq::empty()) == switch_cases_at(
                    self.tokens@,
                    self.position as int,
                    stmt_views(cases@),
                ),
            invariant
                self.tokens == old(self).tokens,
                advanced(self.tokens@, old(self).position as int, self.position as int),
                condition.view().well_formed(),
                switch_at(old(self).tokens@, old(self).position as int) == match switch_cases_at(
                    self.tokens@,
                    start,
                    Seq::empty(),
                ) {
                    Ok((cases, end)) => Ok::<(StmtView, int), ParseError>(
                        (StmtView::Switch { condition: condition.view(), cases }, end),
                    ),
                    Err(error) => Err(error),
                },
                forall|i: int|
                    0 <= i < cases@.len() ==> (#[trigger] stmt_views(cases@)[i]).well_formed(),
            ensures
                advanced(self.tokens@, old(self).position as int, self.position as int),
                switch_cases_at(self.tokens@, start, Seq::empty()) == Ok::<
                    (Seq<StmtView>, int),
                    ParseError,
                >((stmt_views(cases@), self.position as int)),
            decreases self.tokens@.len() - self.position,
        {
            let ghost before = stmt_views(cases@);
            let t = self.peek();
            match &t.token {
                Token::Keyword(Keyword::Case) => {
                    self.advance();
                    let case = self.parse_case()?;
                    let ghost view = case.view();
                    cases.push(case);
                    assert(stmt_views(cases@) =~= before.push(view));
                },
                Token::Keyword(Keyword::Default) => {
                    self.advance();
                    let body = self.parse_statement()?;
                    let default = Stmt::Default { body: Box::new(body) };
                    let ghost view = default.view();
                    cases.push(default);
                    assert(stmt_views(cases@) =~= before.push(view));
                },
                Token::Delimiter(Delimiter::RBrace) => {
                    self.advance();
                    break ;
                },
                _ => {
                    return Err(ParseError::UnknownToken(t.clone()));
                },
            }
        }
        let switch = Stmt::Switch { condition: Box::new(condition), cases };
        assert(switch.view()->Switch_cases =~= stmt_views(cases@));
        Ok(switch)
    }

    /// Parses a `case`, after its keyword: a literal and a statement.
    pub fn parse_case(&mut self) -> (result: Result<Stmt, ParseError>)
        ensures
            final(self).tokens == old(self).tokens,
            yields_stmt(
                result,
                final(self).position,
                case_at(old(self).tokens@, old(self).position as int),
            ),
            result is Ok ==> advanced(
                old(self).tokens@,
                old(self).position as int,
                final(self).position as int,
            ),
            result matches Ok(s) ==> s.view().well_formed() && !(s.view() is Auto),
        decreases old(self).tokens@.len() - old(self).position, 3nat,
    {
        let value = self.literal()?;
        let body = self.parse_statement()?;
        Ok(Stmt::Case { value, body: Box::new(body) })
    }

    /// Parses a `goto` statement, after its keyword: an expression and a `;`.
    pub fn parse_goto(&mut self) -> (result: Result<Stmt, ParseError>)
        ensures
            final(self).tokens == old(self).tokens,
            yields_stmt(
                result,
                final(self).position,
                goto_at(old(self).tokens@, old(self).position as int),
            ),
            result is Ok ==> advanced(
                old(self).tokens@,
                old(self).position as int,
                final(self).position as int,
            ),
            result matches Ok(s) ==> s.view().well_formed() && !(s.view() is Auto),
    {
        let expr = self.parse_expression(0)?;
        self.expect(Delimiter::Semicolon)?;
        Ok(Stmt::Goto { expression: Box::new(expr) })
    }

    /// Parses a `return` statement, after its keyword: a `;`, or an
    /// expression and a `;`.
    pub fn parse_return(&mut self) -> (result: Result<Stmt, ParseError>)
        ensures
            final(self).tokens == old(self).tokens,
            yields_stmt(
                result,
                final(self).position,
                return_at(old(self).tokens@, old(self).position as int),
            ),
            result is Ok ==> advanced(
                old(self).tokens@,
                old(self).position as int,
                final(self).position as int,
            ),
            result matches Ok(s) ==> s.view().well_formed() && !(s.view() is Auto),
    {
        if self.delimiter_ahead(Delimiter::Semicolon) {
            self.advance();
            return Ok(Stmt::Return { value: None });
        }
        let expr = self.parse_expression(0)?;
        self.expect(Delimiter::Semicolon)?;
        Ok(Stmt::Return { value: Some(Box::new(expr)) })
    }
}

} // verus!
