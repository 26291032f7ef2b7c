//! Every rule of the grammar that succeeds has consumed a token.
//!
//! The rules that repeat another one go on only after a step that has moved
//! the cursor. These laws show that every successful step has, so that no
//! rule ever stops for want of it.

use vstd::prelude::*;
use crate::ast::{ExprView, StmtView};
use crate::lexer::token::{Delimiter, Keyword, SpannedToken, Token};
use crate::parser::expr::{
    arguments_at, continued_at, expression_at, is_prefix_operator, operator_at, primary_at,
};
use crate::parser::precedence::Precedence;
use crate::parser::stmt::{
    auto_at, auto_declarations_at, block_at, block_items_at, case_at, condition_at,
    declaration_at, declarations_at, extrn_at, goto_at, identifier_at, if_at, initializers_at,
    names_at, program_at, return_at, statement_at, switch_at, switch_cases_at, top_level_at,
    while_at,
};
use crate::parser::{
    advanced, at_end, delimiter_at, expect_at, left_power_at, precedence_of, token_at,
};

verus! {

/// A primary that is read ends after its start, within the buffer.
pub proof fn lemma_primary_advances(tokens: Seq<SpannedToken>, position: int)
    ensures
        primary_at(tokens, position) matches Ok((_, end)) ==> advanced(tokens, position, end),
    decreases tokens.len() - position, 0nat,
{
    if !at_end(tokens, position) {
        match token_at(tokens, position).token {
            Token::Operator(op) => {
                if is_prefix_operator(op) {
                    lemma_expression_advances(
                        tokens,
                        position + 1,
                        Precedence::Unary.binding_power().1,
                    );
                }
            },
            Token::Delimiter(Delimiter::LParen) => {
                lemma_expression_advances(
                    tokens,
                    position + 1,
                    Precedence::Lowest.binding_power().1,
                );
            },
            _ => {},
        }
    }
}

/// An expression that is read ends after its start, within the buffer.
pub proof fn lemma_expression_advances(tokens: Seq<SpannedToken>, position: int, min_power: u8)
    ensures
        expression_at(tokens, position, min_power) matches Ok((_, end)) ==> advanced(
            tokens,
            position,
            end,
        ),
    decreases tokens.len() - position, 3nat,
{
    lemma_primary_advances(tokens, position);
    match primary_at(tokens, position) {
        Ok((left, next)) => {
            lemma_continued_advances(tokens, next, left, min_power);
        },
        Err(_) => {},
    }
}

/// The continuation of an operand ends at or after the end of the operand,
/// within the buffer.
pub proof fn lemma_continued_advances(
    tokens: Seq<SpannedToken>,
    position: int,
    left: ExprView,
    min_power: u8,
)
    requires
        position <= tokens.len(),
    ensures
        continued_at(tokens, position, left, min_power) matches Ok((_, end)) ==> position <= end
            <= tokens.len(),
    decreases tokens.len() - position, 2nat,
{
    if left_power_at(tokens, position) > min_power {
        lemma_operator_advances(tokens, position, left);
        match operator_at(tokens, position, left) {
            Ok((operand, next)) => {
                if advanced(tokens, position, next) {
                    lemma_continued_advances(tokens, next, operand, min_power);
                }
            },
            Err(_) => {},
        }
    }
}

/// The arguments of a call that are read end after their start, within the
/// buffer.
pub proof fn lemma_arguments_advance(tokens: Seq<SpannedToken>, position: int, read: Seq<ExprView>)
    ensures
        arguments_at(tokens, position, read) matches Ok((_, end)) ==> advanced(
            tokens,
            position,
            end,
        ),
    decreases tokens.len() - position, 4nat,
{
    lemma_expression_advances(tokens, position, Precedence::Lowest.binding_power().1);
    match expression_at(tokens, position, Precedence::Lowest.binding_power().1) {
        Ok((argument, next)) => {
            if advanced(tokens, position, next) && delimiter_at(tokens, next, Delimiter::Comma) {
                lemma_arguments_advance(tokens, next + 1, read.push(argument));
            }
        },
        Err(_) => {},
    }
}

/// An operator that is read with what it governs ends after its start,
/// within the buffer.
pub proof fn lemma_operator_advances(tokens: Seq<SpannedToken>, position: int, left: ExprView)
    ensures
        operator_at(tokens, position, left) matches Ok((_, end)) ==> advanced(
            tokens,
            position,
            end,
        ),
    decreases tokens.len() - position, 1nat,
{
    if !at_end(tokens, position) {
        let operator = token_at(tokens, position);
        match operator.token {
            Token::Operator(op) => {
                lemma_expression_advances(
                    tokens,
                    position + 1,
                    precedence_of(operator.token).operand_limit(),
                );
            },
            Token::Delimiter(Delimiter::LParen) => {
                if !delimiter_at(tokens, position + 1, Delimiter::RParen) {
                    lemma_arguments_advance(tokens, position + 1, Seq::empty());
                }
            },
            Token::Delimiter(Delimiter::LBrack) => {
                lemma_expression_advances(
                    tokens,
                    position + 1,
                    Precedence::Lowest.binding_power().1,
                );
            },
            Token::Delimiter(Delimiter::QMark) => {
                lemma_expression_advances(
                    tokens,
                    position + 1,
                    Precedence::Ternary.operand_limit(),
                );
                match expression_at(tokens, position + 1, Precedence::Ternary.operand_limit()) {
                    Ok((_, colon)) => match expect_at(tokens, colon, Delimiter::Colon) {
                        Ok((_, next)) => {
                            lemma_expression_advances(
                                tokens,
                                next,
                                Precedence::Ternary.operand_limit(),
                            );
                        },
                        Err(_) => {},
                    },
                    Err(_) => {},
                }
            },
            _ => {},
        }
    }
}

/// A list of names that is read ends after its start, within the buffer.
pub proof fn lemma_names_advance(tokens: Seq<SpannedToken>, position: int, read: Seq<SpannedToken>)
    ensures
        names_at(tokens, position, read) matches Ok((_, end)) ==> advanced(tokens, position, end),
    decreases tokens.len() - position,
{
    match identifier_at(tokens, position) {
        Ok((name, next)) => {
            if delimiter_at(tokens, next, Delimiter::Comma) {
                lemma_names_advance(tokens, next + 1, read.push(name));
            }
        },
        Err(_) => {},
    }
}

/// A run of initializers that is read ends at or after its start, within the
/// buffer.
pub proof fn lemma_initializers_advance(
    tokens: Seq<SpannedToken>,
    position: int,
    read: Seq<SpannedToken>,
)
    ensures
        initializers_at(tokens, position, read) matches Ok((_, end)) ==> position <= end
            < tokens.len(),
    decreases tokens.len() - position,
{
    let token = token_at(tokens, position);
    if token.token == Token::Delimiter(Delimiter::Comma) {
        let next = token_at(tokens, position + 1);
        if !(next.token is Identifier) && next.token.is_literal() {
            lemma_initializers_advance(tokens, position + 2, read.push(next));
        }
    }
}

/// What follows the name of a global declaration ends at or after its start,
/// within the buffer.
pub proof fn lemma_declaration_advances(tokens: Seq<SpannedToken>, position: int, name: SpannedToken)
    ensures
        declaration_at(tokens, position, name) matches Ok((_, end)) ==> position <= end
            <= tokens.len(),
{
    let token = token_at(tokens, position);
    if token.token == Token::Delimiter(Delimiter::LBrack) {
        match crate::parser::stmt::size_at(tokens, position) {
            Ok((size, next)) => {
                let first = token_at(tokens, next);
                if first.token.is_literal() && size is Some {
                    lemma_initializers_advance(tokens, next + 1, seq![first]);
                }
            },
            Err(_) => {},
        }
    }
}

/// A list of global declarations that is read ends after its start, within
/// the buffer.
pub proof fn lemma_declarations_advance(
    tokens: Seq<SpannedToken>,
    position: int,
    name: SpannedToken,
    read: Seq<crate::ast::GlobalDeclView>,
)
    ensures
        declarations_at(tokens, position, name, read) matches Ok((_, end)) ==> advanced(
            tokens,
            position,
            end,
        ),
    decreases tokens.len() - position,
{
    lemma_declaration_advances(tokens, position, name);
    match declaration_at(tokens, position, name) {
        Ok((decl, next)) => {
            if position <= next <= tokens.len() && delimiter_at(tokens, next, Delimiter::Comma) {
                match identifier_at(tokens, next + 1) {
                    Ok((another, after)) => {
                        lemma_declarations_advance(tokens, after, another, read.push(decl));
                    },
                    Err(_) => {},
                }
            }
        },
        Err(_) => {},
    }
}

/// The declarations of an `auto` statement that are read end after their
/// start, within the buffer.
pub proof fn lemma_auto_declarations_advance(
    tokens: Seq<SpannedToken>,
    position: int,
    read: Seq<crate::ast::AutoDecl>,
)
    ensures
        auto_declarations_at(tokens, position, read) matches Ok((_, end)) ==> advanced(
            tokens,
            position,
            end,
        ),
    decreases tokens.len() - position,
{
    match identifier_at(tokens, position) {
        Ok((name, next)) => {
            let sized = if delimiter_at(tokens, next, Delimiter::LBrack) {
                crate::parser::stmt::size_at(tokens, next)
            } else {
                Ok((None, next))
            };
            match sized {
                Ok((size, after)) => {
                    if advanced(tokens, position, after) && delimiter_at(
                        tokens,
                        after,
                        Delimiter::Comma,
                    ) {
                        lemma_auto_declarations_advance(
                            tokens,
                            after + 1,
                            read.push(crate::ast::AutoDecl { name, size }),
                        );
                    }
                },
                Err(_) => {},
            }
        },
        Err(_) => {},
    }
}

/// A statement without a statement in it that is read ends after its start,
/// within the buffer: an `auto`, an `extrn`, a `goto` and a `return`
/// statement, and a condition in parentheses.
pub proof fn lemma_plain_statements_advance(tokens: Seq<SpannedToken>, position: int)
    ensures
        auto_at(tokens, position) matches Ok((_, end)) ==> advanced(tokens, position, end),
        extrn_at(tokens, position) matches Ok((_, end)) ==> advanced(tokens, position, end),
        goto_at(tokens, position) matches Ok((_, end)) ==> advanced(tokens, position, end),
        return_at(tokens, position) matches Ok((_, end)) ==> advanced(tokens, position, end),
        condition_at(tokens, position) matches Ok((_, end)) ==> advanced(tokens, position, end),
{
    lemma_auto_declarations_advance(tokens, position + 1, Seq::empty());
    lemma_names_advance(tokens, position, Seq::empty());
    lemma_expression_advances(tokens, position, 0);
    lemma_expression_advances(tokens, position + 1, 0);
}

/// A statement that is read ends after its start, within the buffer.
pub proof fn lemma_statement_advances(tokens: Seq<SpannedToken>, position: int)
    ensures
        statement_at(tokens, position) matches Ok((_, end)) ==> advanced(tokens, position, end),
    decreases tokens.len() - position, 1nat,
{
    let first = token_at(tokens, position);
    lemma_plain_statements_advance(tokens, position);
    lemma_plain_statements_advance(tokens, position + 1);
    match first.token {
        Token::Delimiter(Delimiter::Semicolon) => {},
        Token::Delimiter(Delimiter::LBrace) => {
            lemma_block_advances(tokens, position);
        },
        Token::Keyword(Keyword::Extrn) => {},
        Token::Keyword(Keyword::If) => {
            lemma_if_advances(tokens, position + 1);
        },
        Token::Keyword(Keyword::While) => {
            lemma_while_advances(tokens, position + 1);
        },
        Token::Keyword(Keyword::Switch) => {
            lemma_switch_advances(tokens, position + 1);
        },
        Token::Keyword(Keyword::Case) => {
            lemma_case_advances(tokens, position + 1);
        },
        Token::Keyword(Keyword::Goto) => {},
        Token::Keyword(Keyword::Return) => {},
        _ => {
            if first.token is Identifier && delimiter_at(tokens, position + 1, Delimiter::Colon) {
                lemma_statement_advances(tokens, position + 2);
            }
        },
    }
}

/// A block that is read ends after its start, within the buffer.
pub proof fn lemma_block_advances(tokens: Seq<SpannedToken>, position: int)
    ensures
        block_at(tokens, position) matches Ok((_, end)) ==> advanced(tokens, position, end),
    decreases tokens.len() - position, 0nat,
{
    match expect_at(tokens, position, Delimiter::LBrace) {
        Ok((_, start)) => {
            lemma_block_items_advance(tokens, start, Seq::empty(), true);
        },
        Err(_) => {},
    }
}

/// The rest of a block that is read ends after its start, within the buffer.
pub proof fn lemma_block_items_advance(
    tokens: Seq<SpannedToken>,
    position: int,
    read: Seq<StmtView>,
    first: bool,
)
    ensures
        block_items_at(tokens, position, read, first) matches Ok((_, end)) ==> advanced(
            tokens,
            position,
            end,
        ),
    decreases tokens.len() - position, 2nat,
{
    let token = token_at(tokens, position);
    if token.token != Token::Delimiter(Delimiter::RBrace) && !(token.token == Token::Keyword(
        Keyword::Auto,
    ) && !first) {
        let item = if token.token == Token::Keyword(Keyword::Auto) {
            auto_at(tokens, position)
        } else {
            statement_at(tokens, position)
        };
        match item {
            Ok((statement, next)) => {
                if advanced(tokens, position, next) {
                    lemma_block_items_advance(tokens, next, read.push(statement), false);
                }
            },
            Err(_) => {},
        }
    }
}

/// An `if` statement that is read ends after its start, within the buffer.
pub proof fn lemma_if_advances(tokens: Seq<SpannedToken>, position: int)
    ensures
        if_at(tokens, position) matches Ok((_, end)) ==> advanced(tokens, position, end),
    decreases tokens.len() - position, 3nat,
{
    match condition_at(tokens, position) {
        Ok((_, start)) => {
            if advanced(tokens, position, start) {
                lemma_statement_advances(tokens, start);
                match statement_at(tokens, start) {
                    Ok((_, next)) => {
                        if token_at(tokens, next).token == Token::Keyword(Keyword::Else)
                            && advanced(tokens, position, next) {
                            lemma_statement_advances(tokens, next + 1);
                        }
                    },
                    Err(_) => {},
                }
            }
        },
        Err(_) => {},
    }
}

/// A `while` statement that is read ends after its start, within the buffer.
pub proof fn lemma_while_advances(tokens: Seq<SpannedToken>, position: int)
    ensures
        while_at(tokens, position) matches Ok((_, end)) ==> advanced(tokens, position, end),
    decreases tokens.len() - position, 3nat,
{
    match condition_at(tokens, position) {
        Ok((_, start)) => {
            if advanced(tokens, position, start) {
                lemma_statement_advances(tokens, start);
            }
        },
        Err(_) => {},
    }
}

/// A `case` that is read ends after its start, within the buffer.
pub proof fn lemma_case_advances(tokens: Seq<SpannedToken>, position: int)
    ensures
        case_at(tokens, position) matches Ok((_, end)) ==> advanced(tokens, position, end),
    decreases tokens.len() - position, 3nat,
{
    match crate::parser::stmt::literal_at(tokens, position) {
        Ok((_, start)) => {
            lemma_statement_advances(tokens, start);
        },
        Err(_) => {},
    }
}

/// A `switch` statement that is read ends after its start, within the
/// buffer.
pub proof fn lemma_switch_advances(tokens: Seq<SpannedToken>, position: int)
    ensures
        switch_at(tokens, position) matches Ok((_, end)) ==> advanced(tokens, position, end),
    decreases tokens.len() - position, 3nat,
{
    match expression_at(tokens, position, 0) {
        Ok((_, open)) => match expect_at(tokens, open, Delimiter::LBrace) {
            Ok((_, start)) => {
                if advanced(tokens, position, start) {
                    lemma_switch_cases_advance(tokens, start, Seq::empty());
                }
            },
            Err(_) => {},
        },
        Err(_) => {},
    }
}

/// The rest of the body of a `switch` that is read ends after its start,
/// within the buffer.
pub proof fn lemma_switch_cases_advance(
    tokens: Seq<SpannedToken>,
    position: int,
    read: Seq<StmtView>,
)
    ensures
        switch_cases_at(tokens, position, read) matches Ok((_, end)) ==> advanced(
            tokens,
            position,
            end,
        ),
    decreases tokens.len() - position, 4nat,
{
    let token = token_at(tokens, position);
    if token.token == Token::Keyword(Keyword::Case) {
        match case_at(tokens, position + 1) {
            Ok((case, next)) => {
                if advanced(tokens, position, next) {
                    lemma_switch_cases_advance(tokens, next, read.push(case));
                }
            },
            Err(_) => {},
        }
    } else if token.token == Token::Keyword(Keyword::Default) {
        match statement_at(tokens, position + 1) {
            Ok((body, next)) => {
                if advanced(tokens, position, next) {
                    lemma_switch_cases_advance(
                        tokens,
                        next,
                        read.push(StmtView::Default { body: Box::new(body) }),
                    );
                }
            },
            Err(_) => {},
        }
    }
}

/// An item of a program that is read ends after its start, within the
/// buffer.
pub proof fn lemma_top_level_advances(tokens: Seq<SpannedToken>, position: int)
    ensures
        top_level_at(tokens, position) matches Ok((_, end)) ==> advanced(tokens, position, end),
{
    match identifier_at(tokens, position) {
        Ok((name, next)) => {
            if delimiter_at(tokens, next, Delimiter::LParen) {
                let list = if delimiter_at(tokens, next + 1, Delimiter::RParen) {
                    Ok((Seq::<SpannedToken>::empty(), next + 1))
                } else {
                    names_at(tokens, next + 1, Seq::empty())
                };
                lemma_names_advance(tokens, next + 1, Seq::empty());
                match list {
                    Ok((_, close)) => match expect_at(tokens, close, Delimiter::RParen) {
                        Ok((_, start)) => {
                            lemma_block_advances(tokens, start);
                        },
                        Err(_) => {},
                    },
                    Err(_) => {},
                }
            } else {
                lemma_declarations_advance(tokens, next, name, Seq::empty());
            }
        },
        Err(_) => {},
    }
}

/// A program that is read ends on an end-of-input marker.
pub proof fn lemma_program_ends_at_the_marker(
    tokens: Seq<SpannedToken>,
    position: int,
    read: Seq<crate::ast::TopLevelView>,
)
    ensures
        program_at(tokens, position, read) matches Ok((_, end)) ==> position <= end && at_end(
            tokens,
            end,
        ),
    decreases tokens.len() - position,
{
    if !at_end(tokens, position) {
        match top_level_at(tokens, position) {
            Ok((item, next)) => {
                if advanced(tokens, position, next) {
                    lemma_program_ends_at_the_marker(tokens, next, read.push(item));
                }
            },
            Err(_) => {},
        }
    }
}

} // verus!
