//! The names of a tree are names of the buffer.
//!
//! The parser puts no token into a tree that it has not read. So where every
//! name of the buffer is a word of the language, as the scanner yields them,
//! every name of the tree is one.

use vstd::prelude::*;
use crate::ast::reading::is_plain;
use crate::ast::{AutoDecl, ExprView, GlobalDeclView, StmtView, TopLevelView};
use crate::lexer::token::{Delimiter, Keyword, SpannedToken, Token};
use crate::parser::expr::{
    arguments_at, continued_at, expression_at, is_prefix_operator, operator_at, primary_at,
};
use crate::parser::precedence::Precedence;
use crate::parser::stmt::{
    auto_at, auto_declarations_at, block_at, block_items_at, case_at, condition_at,
    declaration_at, declarations_at, extrn_at, goto_at, identifier_at, if_at, initializers_at,
    literal_at, names_at, program_at, return_at, size_at, statement_at, switch_at,
    switch_cases_at, top_level_at, while_at,
};
use crate::parser::{advanced, at_end, delimiter_at, expect_at, left_power_at, precedence_of, token_at};

verus! {

/// Whether every name of a buffer is a word of the language.
pub open spec fn plain_buffer(tokens: Seq<SpannedToken>) -> bool {
    plain_tokens(tokens)
}

/// Whether every token of a sequence, if it is a name, is a word.
pub open spec fn plain_tokens(tokens: Seq<SpannedToken>) -> bool {
    forall|i: int| 0 <= i < tokens.len() ==> is_plain((#[trigger] tokens[i]).token@)
}

/// Whether every name of a sequence of expressions is a word.
pub open spec fn plain_exprs(exprs: Seq<ExprView>) -> bool {
    forall|i: int| 0 <= i < exprs.len() ==> (#[trigger] exprs[i]).has_plain_names()
}

/// Whether every name of a sequence of statements is a word.
pub open spec fn plain_stmts(stmts: Seq<StmtView>) -> bool {
    forall|i: int| 0 <= i < stmts.len() ==> (#[trigger] stmts[i]).has_plain_names()
}

/// Whether the name of each of a sequence of local declarations is a word.
pub open spec fn plain_autos(decls: Seq<AutoDecl>) -> bool {
    forall|i: int| 0 <= i < decls.len() ==> is_plain((#[trigger] decls[i]).name.token@)
}

/// Whether the name of each of a sequence of global declarations is a word.
pub open spec fn plain_globals(decls: Seq<GlobalDeclView>) -> bool {
    forall|i: int| 0 <= i < decls.len() ==> is_plain((#[trigger] decls[i]).name.token@)
}

/// Whether every name of a sequence of items is a word.
pub open spec fn plain_items(items: Seq<TopLevelView>) -> bool {
    forall|i: int| 0 <= i < items.len() ==> (#[trigger] items[i]).has_plain_names()
}

/// A name that is read at a position of a plain buffer is a word.
pub proof fn lemma_token_is_plain(tokens: Seq<SpannedToken>, position: int)
    requires
        plain_buffer(tokens),
    ensures
        is_plain(token_at(tokens, position).token@),
{
}

/// The names of a primary are words.
pub proof fn lemma_primary_names(tokens: Seq<SpannedToken>, position: int)
    requires
        plain_buffer(tokens),
    ensures
        primary_at(tokens, position) matches Ok((expr, _)) ==> expr.has_plain_names(),
    decreases tokens.len() - position, 0nat,
{
    lemma_token_is_plain(tokens, position);
    if !at_end(tokens, position) {
        match token_at(tokens, position).token {
            Token::Operator(op) => {
                if is_prefix_operator(op) {
                    lemma_expression_names(
                        tokens,
                        position + 1,
                        Precedence::Unary.binding_power().1,
                    );
                }
            },
            Token::Delimiter(Delimiter::LParen) => {
                lemma_expression_names(
                    tokens,
                    position + 1,
                    Precedence::Lowest.binding_power().1,
                );
            },
            _ => {},
        }
    }
}

/// The names of an expression are words.
pub proof fn lemma_expression_names(tokens: Seq<SpannedToken>, position: int, min_power: u8)
    requires
        plain_buffer(tokens),
    ensures
        expression_at(tokens, position, min_power) matches Ok((expr, _)) ==> expr.has_plain_names(),
    decreases tokens.len() - position, 3nat,
{
    lemma_primary_names(tokens, position);
    match primary_at(tokens, position) {
        Ok((left, next)) => {
            if advanced(tokens, position, next) {
                lemma_continued_names(tokens, next, left, min_power);
            }
        },
        Err(_) => {},
    }
}

/// The names of an operand with what continues it are words.
pub proof fn lemma_continued_names(
    tokens: Seq<SpannedToken>,
    position: int,
    left: ExprView,
    min_power: u8,
)
    requires
        plain_buffer(tokens),
        left.has_plain_names(),
    ensures
        continued_at(tokens, position, left, min_power) matches Ok((expr, _))
            ==> expr.has_plain_names(),
    decreases tokens.len() - position, 2nat,
{
    if left_power_at(tokens, position) > min_power {
        lemma_operator_names(tokens, position, left);
        match operator_at(tokens, position, left) {
            Ok((operand, next)) => {
                if advanced(tokens, position, next) {
                    lemma_continued_names(tokens, next, operand, min_power);
                }
            },
            Err(_) => {},
        }
    }
}

/// The names of the arguments of a call are words.
pub proof fn lemma_arguments_names(tokens: Seq<SpannedToken>, position: int, read: Seq<ExprView>)
    requires
        plain_buffer(tokens),
        plain_exprs(read),
    ensures
        arguments_at(tokens, position, read) matches Ok((arguments, _)) ==> plain_exprs(arguments),
    decreases tokens.len() - position, 4nat,
{
    lemma_expression_names(tokens, position, Precedence::Lowest.binding_power().1);
    match expression_at(tokens, position, Precedence::Lowest.binding_power().1) {
        Ok((argument, next)) => {
            if advanced(tokens, position, next) {
                let longer = read.push(argument);
                assert(plain_exprs(longer)) by {
                    assert forall|i: int| 0 <= i < longer.len() implies (
                    #[trigger] longer[i]).has_plain_names() by {
                        if i < read.len() {
                            assert(longer[i] == read[i]);
                        }
                    }
                }
                if delimiter_at(tokens, next, Delimiter::Comma) {
                    lemma_arguments_names(tokens, next + 1, longer);
                }
            }
        },
        Err(_) => {},
    }
}

/// The names of an operator with what it governs are words.
pub proof fn lemma_operator_names(tokens: Seq<SpannedToken>, position: int, left: ExprView)
    requires
        plain_buffer(tokens),
        left.has_plain_names(),
    ensures
        operator_at(tokens, position, left) matches Ok((expr, _)) ==> expr.has_plain_names(),
    decreases tokens.len() - position, 1nat,
{
    if !at_end(tokens, position) {
        let operator = token_at(tokens, position);
        match operator.token {
            Token::Operator(op) => {
                lemma_expression_names(
                    tokens,
                    position + 1,
                    precedence_of(operator.token).operand_limit(),
                );
            },
            Token::Delimiter(Delimiter::LParen) => {
                if !delimiter_at(tokens, position + 1, Delimiter::RParen) {
                    lemma_arguments_names(tokens, position + 1, Seq::empty());
                }
            },
            Token::Delimiter(Delimiter::LBrack) => {
                lemma_expression_names(
                    tokens,
                    position + 1,
                    Precedence::Lowest.binding_power().1,
                );
            },
            Token::Delimiter(Delimiter::QMark) => {
                lemma_expression_names(tokens, position + 1, Precedence::Ternary.operand_limit());
                match expression_at(tokens, position + 1, Precedence::Ternary.operand_limit()) {
                    Ok((_, colon)) => match expect_at(tokens, colon, Delimiter::Colon) {
                        Ok((_, next)) => {
                            if advanced(tokens, position, next) {
                                lemma_expression_names(
                                    tokens,
                                    next,
                                    Precedence::Ternary.operand_limit(),
                                );
                            }
                        },
                        Err(_) => {},
                    },
                    Err(_) => {},
                }
            },
            _ => {},
        }
    }
}

/// A sequence of words with one more is a sequence of words.
proof fn lemma_plain_push(read: Seq<SpannedToken>, token: SpannedToken)
    requires
        plain_tokens(read),
        is_plain(token.token@),
    ensures
        plain_tokens(read.push(token)),
{
    let longer = read.push(token);
    assert forall|i: int| 0 <= i < longer.len() implies is_plain((#[trigger] longer[i]).token@) by {
        if i < read.len() {
            assert(longer[i] == read[i]);
        }
    }
}

/// The names of a list of names are words.
pub proof fn lemma_names_names(tokens: Seq<SpannedToken>, position: int, read: Seq<SpannedToken>)
    requires
        plain_buffer(tokens),
        plain_tokens(read),
    ensures
        names_at(tokens, position, read) matches Ok((names, _)) ==> plain_tokens(names),
    decreases tokens.len() - position,
{
    lemma_token_is_plain(tokens, position);
    match identifier_at(tokens, position) {
        Ok((name, next)) => {
            lemma_plain_push(read, name);
            if delimiter_at(tokens, next, Delimiter::Comma) {
                lemma_names_names(tokens, next + 1, read.push(name));
            }
        },
        Err(_) => {},
    }
}

/// The names of the declarations of an `auto` statement are words.
pub proof fn lemma_auto_names(tokens: Seq<SpannedToken>, position: int, read: Seq<AutoDecl>)
    requires
        plain_buffer(tokens),
        plain_autos(read),
    ensures
        auto_declarations_at(tokens, position, read) matches Ok((stmt, _))
            ==> stmt.has_plain_names(),
    decreases tokens.len() - position,
{
    lemma_token_is_plain(tokens, position);
    match identifier_at(tokens, position) {
        Ok((name, next)) => {
            let sized = if delimiter_at(tokens, next, Delimiter::LBrack) {
                size_at(tokens, next)
            } else {
                Ok((None, next))
            };
            match sized {
                Ok((size, after)) => {
                    let longer = read.push(AutoDecl { name, size });
                    assert(plain_autos(longer)) by {
                        assert forall|i: int| 0 <= i < longer.len() implies is_plain(
                            (#[trigger] longer[i]).name.token@,
                        ) by {
                            if i < read.len() {
                                assert(longer[i] == read[i]);
                            }
                        }
                    }
                    if advanced(tokens, position, after) && delimiter_at(
                        tokens,
                        after,
                        Delimiter::Comma,
                    ) {
                        lemma_auto_names(tokens, after + 1, longer);
                    }
                },
                Err(_) => {},
            }
        },
        Err(_) => {},
    }
}

/// The names of a statement that holds no statement are words, and so are
/// those of a condition in parentheses.
pub proof fn lemma_plain_statement_names(tokens: Seq<SpannedToken>, position: int)
    requires
        plain_buffer(tokens),
    ensures
        auto_at(tokens, position) matches Ok((stmt, _)) ==> stmt.has_plain_names(),
        extrn_at(tokens, position) matches Ok((stmt, _)) ==> stmt.has_plain_names(),
        goto_at(tokens, position) matches Ok((stmt, _)) ==> stmt.has_plain_names(),
        return_at(tokens, position) matches Ok((stmt, _)) ==> stmt.has_plain_names(),
        condition_at(tokens, position) matches Ok((expr, _)) ==> expr.has_plain_names(),
{
    lemma_auto_names(tokens, position + 1, Seq::empty());
    lemma_names_names(tokens, position, Seq::empty());
    lemma_expression_names(tokens, position, 0);
    lemma_expression_names(tokens, position + 1, 0);
}

/// The names of a statement are words.
pub proof fn lemma_statement_names(tokens: Seq<SpannedToken>, position: int)
    requires
        plain_buffer(tokens),
    ensures
        statement_at(tokens, position) matches Ok((stmt, _)) ==> stmt.has_plain_names(),
    decreases tokens.len() - position, 1nat,
{
    let first = token_at(tokens, position);
    lemma_token_is_plain(tokens, position);
    lemma_plain_statement_names(tokens, position);
    lemma_plain_statement_names(tokens, position + 1);
    match first.token {
        Token::Delimiter(Delimiter::Semicolon) => {},
        Token::Delimiter(Delimiter::LBrace) => {
            lemma_block_names(tokens, position);
        },
        Token::Keyword(Keyword::Extrn) => {},
        Token::Keyword(Keyword::If) => {
            lemma_if_names(tokens, position + 1);
        },
        Token::Keyword(Keyword::While) => {
            lemma_while_names(tokens, position + 1);
        },
        Token::Keyword(Keyword::Switch) => {
            lemma_switch_names(tokens, position + 1);
        },
        Token::Keyword(Keyword::Case) => {
            lemma_case_names(tokens, position + 1);
        },
        Token::Keyword(Keyword::Goto) => {},
        Token::Keyword(Keyword::Return) => {},
        _ => {
            if first.token is Identifier && delimiter_at(tokens, position + 1, Delimiter::Colon) {
                lemma_statement_names(tokens, position + 2);
            }
        },
    }
}

/// The names of a block are words.
pub proof fn lemma_block_names(tokens: Seq<SpannedToken>, position: int)
    requires
        plain_buffer(tokens),
    ensures
        block_at(tokens, position) matches Ok((stmt, _)) ==> stmt.has_plain_names(),
    decreases tokens.len() - position, 0nat,
{
    match expect_at(tokens, position, Delimiter::LBrace) {
        Ok((_, start)) => {
            if advanced(tokens, position, start) {
                lemma_block_items_names(tokens, start, Seq::empty(), true);
            }
        },
        Err(_) => {},
    }
}

/// The names of the rest of a block are words.
pub proof fn lemma_block_items_names(
    tokens: Seq<SpannedToken>,
    position: int,
    read: Seq<StmtView>,
    first: bool,
)
    requires
        plain_buffer(tokens),
        plain_stmts(read),
    ensures
        block_items_at(tokens, position, read, first) matches Ok((stmt, _))
            ==> stmt.has_plain_names(),
    decreases tokens.len() - position, 2nat,
{
    let token = token_at(tokens, position);
    if token.token != Token::Delimiter(Delimiter::RBrace) && !(token.token == Token::Keyword(
        Keyword::Auto,
    ) && !first) {
        lemma_plain_statement_names(tokens, position);
        let item = if token.token == Token::Keyword(Keyword::Auto) {
            auto_at(tokens, position)
        } else {
            lemma_statement_names(tokens, position);
            statement_at(tokens, position)
        };
        match item {
            Ok((statement, next)) => {
                if advanced(tokens, position, next) {
                    let longer = read.push(statement);
                    assert(plain_stmts(longer)) by {
                        assert forall|i: int| 0 <= i < longer.len() implies (
                        #[trigger] longer[i]).has_plain_names() by {
                            if i < read.len() {
                                assert(longer[i] == read[i]);
                            }
                        }
                    }
                    lemma_block_items_names(tokens, next, longer, false);
                }
            },
            Err(_) => {},
        }
    }
}

/// The names of an `if` statement are words.
pub proof fn lemma_if_names(tokens: Seq<SpannedToken>, position: int)
    requires
        plain_buffer(tokens),
    ensures
        if_at(tokens, position) matches Ok((stmt, _)) ==> stmt.has_plain_names(),
    decreases tokens.len() - position, 3nat,
{
    lemma_plain_statement_names(tokens, position);
    match condition_at(tokens, position) {
        Ok((_, start)) => {
            if advanced(tokens, position, start) {
                lemma_statement_names(tokens, start);
                match statement_at(tokens, start) {
                    Ok((_, next)) => {
                        if token_at(tokens, next).token == Token::Keyword(Keyword::Else)
                            && advanced(tokens, position, next) {
                            lemma_statement_names(tokens, next + 1);
                        }
                    },
                    Err(_) => {},
                }
            }
        },
        Err(_) => {},
    }
}

/// The names of a `while` statement are words.
pub proof fn lemma_while_names(tokens: Seq<SpannedToken>, position: int)
    requires
        plain_buffer(tokens),
    ensures
        while_at(tokens, position) matches Ok((stmt, _)) ==> stmt.has_plain_names(),
    decreases tokens.len() - position, 3nat,
{
    lemma_plain_statement_names(tokens, position);
    match condition_at(tokens, position) {
        Ok((_, start)) => {
            if advanced(tokens, position, start) {
                lemma_statement_names(tokens, start);
            }
        },
        Err(_) => {},
    }
}

/// The names of a `case` are words.
pub proof fn lemma_case_names(tokens: Seq<SpannedToken>, position: int)
    requires
        plain_buffer(tokens),
    ensures
        case_at(tokens, position) matches Ok((stmt, _)) ==> stmt.has_plain_names(),
    decreases tokens.len() - position, 3nat,
{
    match literal_at(tokens, position) {
        Ok((_, start)) => {
            lemma_statement_names(tokens, start);
        },
        Err(_) => {},
    }
}

/// The names of a `switch` statement are words.
pub proof fn lemma_switch_names(tokens: Seq<SpannedToken>, position: int)
    requires
        plain_buffer(tokens),
    ensures
        switch_at(tokens, position) matches Ok((stmt, _)) ==> stmt.has_plain_names(),
    decreases tokens.len() - position, 3nat,
{
    lemma_expression_names(tokens, position, 0);
    match expression_at(tokens, position, 0) {
        Ok((_, open)) => match expect_at(tokens, open, Delimiter::LBrace) {
            Ok((_, start)) => {
                if advanced(tokens, position, start) {
                    lemma_switch_cases_names(tokens, start, Seq::empty());
                }
            },
            Err(_) => {},
        },
        Err(_) => {},
    }
}

/// The names of the rest of the body of a `switch` are words.
pub proof fn lemma_switch_cases_names(
    tokens: Seq<SpannedToken>,
    position: int,
    read: Seq<StmtView>,
)
    requires
        plain_buffer(tokens),
        plain_stmts(read),
    ensures
        switch_cases_at(tokens, position, read) matches Ok((cases, _)) ==> plain_stmts(cases),
    decreases tokens.len() - position, 4nat,
{
    let token = token_at(tokens, position);
    if token.token == Token::Keyword(Keyword::Case) {
        lemma_case_names(tokens, position + 1);
        match case_at(tokens, position + 1) {
            Ok((case, next)) => {
                if advanced(tokens, position, next) {
                    let longer = read.push(case);
                    assert(plain_stmts(longer)) by {
                        assert forall|i: int| 0 <= i < longer.len() implies (
                        #[trigger] longer[i]).has_plain_names() by {
                            if i < read.len() {
                                assert(longer[i] == read[i]);
                            }
                        }
                    }
                    lemma_switch_cases_names(tokens, next, longer);
                }
            },
            Err(_) => {},
        }
    } else if token.token == Token::Keyword(Keyword::Default) {
        lemma_statement_names(tokens, position + 1);
        match statement_at(tokens, position + 1) {
            Ok((body, next)) => {
                if advanced(tokens, position, next) {
                    let longer = read.push(StmtView::Default { body: Box::new(body) });
                    assert(plain_stmts(longer)) by {
                        assert forall|i: int| 0 <= i < longer.len() implies (
                        #[trigger] longer[i]).has_plain_names() by {
                            if i < read.len() {
                                assert(longer[i] == read[i]);
                            }
                        }
                    }
                    lemma_switch_cases_names(tokens, next, longer);
                }
            },
            Err(_) => {},
        }
    }
}

/// The names of a list of global declarations are words.
pub proof fn lemma_declarations_names(
    tokens: Seq<SpannedToken>,
    position: int,
    name: SpannedToken,
    read: Seq<GlobalDeclView>,
)
    requires
        plain_buffer(tokens),
        is_plain(name.token@),
        plain_globals(read),
    ensures
        declarations_at(tokens, position, name, read) matches Ok((decls, _)) ==> plain_globals(
            decls,
        ),
    decreases tokens.len() - position,
{
    match declaration_at(tokens, position, name) {
        Ok((decl, next)) => {
            assert(decl.name == name) by {
                let token = token_at(tokens, position);
                if token.token == Token::Delimiter(Delimiter::LBrack) {
                    match size_at(tokens, position) {
                        Ok((size, after)) => {
                            let first = token_at(tokens, after);
                            if first.token.is_literal() && size is Some {
                                match initializers_at(tokens, after + 1, seq![first]) {
                                    Ok(_) => {},
                                    Err(_) => {},
                                }
                            }
                        },
                        Err(_) => {},
                    }
                }
            }
            let longer = read.push(decl);
            assert(plain_globals(longer)) by {
                assert forall|i: int| 0 <= i < longer.len() implies is_plain(
                    (#[trigger] longer[i]).name.token@,
                ) by {
                    if i < read.len() {
                        assert(longer[i] == read[i]);
                    }
                }
            }
            if position <= next <= tokens.len() && delimiter_at(tokens, next, Delimiter::Comma) {
                lemma_token_is_plain(tokens, next + 1);
                match identifier_at(tokens, next + 1) {
                    Ok((another, after)) => {
                        lemma_declarations_names(tokens, after, another, longer);
                    },
                    Err(_) => {},
                }
            }
        },
        Err(_) => {},
    }
}

/// The names of an item of a program are words.
pub proof fn lemma_top_level_names(tokens: Seq<SpannedToken>, position: int)
    requires
        plain_buffer(tokens),
    ensures
        top_level_at(tokens, position) matches Ok((item, _)) ==> item.has_plain_names(),
{
    lemma_token_is_plain(tokens, position);
    match identifier_at(tokens, position) {
        Ok((name, next)) => {
            if delimiter_at(tokens, next, Delimiter::LParen) {
                lemma_names_names(tokens, next + 1, Seq::empty());
                let list = if delimiter_at(tokens, next + 1, Delimiter::RParen) {
                    Ok((Seq::<SpannedToken>::empty(), next + 1))
                } else {
                    names_at(tokens, next + 1, Seq::empty())
                };
                match list {
                    Ok((_, close)) => match expect_at(tokens, close, Delimiter::RParen) {
                        Ok((_, start)) => {
                            lemma_block_names(tokens, start);
                        },
                        Err(_) => {},
                    },
                    Err(_) => {},
                }
            } else {
                lemma_declarations_names(tokens, next, name, Seq::empty());
            }
        },
        Err(_) => {},
    }
}

/// The names of a program are words: of every program that is parsed from a
/// buffer whose names are words.
pub proof fn lemma_program_names(
    tokens: Seq<SpannedToken>,
    position: int,
    read: Seq<TopLevelView>,
)
    requires
        plain_buffer(tokens),
        plain_items(read),
    ensures
        program_at(tokens, position, read) matches Ok((program, _)) ==> plain_items(
            program.top_level,
        ),
    decreases tokens.len() - position,
{
    if !at_end(tokens, position) {
        lemma_top_level_names(tokens, position);
        match top_level_at(tokens, position) {
            Ok((item, next)) => {
                if advanced(tokens, position, next) {
                    let longer = read.push(item);
                    assert(plain_items(longer)) by {
                        assert forall|i: int| 0 <= i < longer.len() implies (
                        #[trigger] longer[i]).has_plain_names() by {
                            if i < read.len() {
                                assert(longer[i] == read[i]);
                            }
                        }
                    }
                    lemma_program_names(tokens, next, longer);
                }
            },
            Err(_) => {},
        }
    }
}

} // verus!
