//! Laws of the grammar: how operators group, which of two binds first, what
//! may be assigned to, where `auto` may stand, and how a vector is declared.
//! Each is stated of every choice of tokens of the kinds it names.

use vstd::prelude::*;
use crate::ast::{AutoDecl, ExprView, GlobalDeclView, StmtView, TopLevelView};
use crate::lexer::token::{Delimiter, Keyword, Operator, SpannedToken, Token};
use crate::parser::expr::{
    continued_at, expression_at, is_assignment_operator, is_binary_operator, operator_at,
    primary_at,
};
use crate::parser::stmt::{
    auto_at, auto_declarations_at, block_at, block_items_at, declaration_at, declarations_at,
    initializers_at, size_at, statement_at, top_level_at,
};
use crate::parser::{precedence_of, token_at, ParseError};

verus! {

/// Whether a token is one that is an operand by itself: a name or a literal.
pub open spec fn is_atom(token: Token) -> bool {
    token is Identifier || token.is_literal()
}

/// The expression that an atom is by itself.
pub open spec fn atom(token: SpannedToken) -> ExprView {
    if token.token is Identifier {
        ExprView::Variable { name: token }
    } else {
        ExprView::Literal { value: token }
    }
}

/// Whether a token is an arithmetic or comparison operator.
pub open spec fn is_binary(token: Token) -> bool {
    token matches Token::Operator(op) && is_binary_operator(op)
}

/// Whether a token is an assignment operator.
pub open spec fn is_assignment(token: Token) -> bool {
    token matches Token::Operator(op) && is_assignment_operator(op)
}

/// The expression of an operator between two operands.
pub open spec fn binary(left: ExprView, operator: SpannedToken, right: ExprView) -> ExprView {
    ExprView::Binary { left: Box::new(left), operator, right: Box::new(right) }
}

/// The expression of an assignment.
pub open spec fn assign(lvalue: ExprView, operator: SpannedToken, value: ExprView) -> ExprView {
    ExprView::Assign { lvalue: Box::new(lvalue), operator, value: Box::new(value) }
}

/// Where an atom stands in the buffer, it is read as a primary, and under any
/// limit it is the whole expression if the token after it does not continue
/// it.
proof fn lemma_atom(tokens: Seq<SpannedToken>, position: int, min_power: u8)
    requires
        0 <= position < tokens.len(),
        is_atom(tokens[position].token),
        !(precedence_of(crate::parser::token_at(tokens, position + 1).token).binding_power().0
            > min_power),
    ensures
        expression_at(tokens, position, min_power) == Ok::<(ExprView, int), ParseError>(
            (atom(tokens[position]), position + 1),
        ),
{
    assert(primary_at(tokens, position) == Ok::<(ExprView, int), ParseError>(
        (atom(tokens[position]), position + 1),
    ));
    assert(continued_at(tokens, position + 1, atom(tokens[position]), min_power) == Ok::<
        (ExprView, int),
        ParseError,
    >((atom(tokens[position]), position + 1)));
}

/// An arithmetic or comparison operator groups to the left: `a - b - c` is
/// `(a - b) - c`, for all atoms and for any two such operators of one level.
pub proof fn lemma_binary_groups_left(
    a: SpannedToken,
    first: SpannedToken,
    b: SpannedToken,
    second: SpannedToken,
    c: SpannedToken,
)
    requires
        is_atom(a.token),
        is_atom(b.token),
        is_atom(c.token),
        is_binary(first.token),
        is_binary(second.token),
        precedence_of(first.token) == precedence_of(second.token),
    ensures
        expression_at(seq![a, first, b, second, c], 0, 0) == Ok::<(ExprView, int), ParseError>(
            (binary(binary(atom(a), first, atom(b)), second, atom(c)), 5),
        ),
{
    let tokens = seq![a, first, b, second, c];
    let power = precedence_of(first.token).operand_limit();
    lemma_atom(tokens, 2, power);
    lemma_atom(tokens, 4, power);
    let ab = binary(atom(a), first, atom(b));
    let abc = binary(ab, second, atom(c));
    assert(primary_at(tokens, 0) == Ok::<(ExprView, int), ParseError>((atom(a), 1)));
    assert(operator_at(tokens, 1, atom(a)) == Ok::<(ExprView, int), ParseError>((ab, 3)));
    assert(operator_at(tokens, 3, ab) == Ok::<(ExprView, int), ParseError>((abc, 5)));
    assert(continued_at(tokens, 5, abc, 0) == Ok::<(ExprView, int), ParseError>((abc, 5)));
    assert(continued_at(tokens, 3, ab, 0) == Ok::<(ExprView, int), ParseError>((abc, 5)));
    assert(continued_at(tokens, 1, atom(a), 0) == Ok::<(ExprView, int), ParseError>((abc, 5)));
}

/// An assignment groups to the right: `a = b = c` is `a = (b = c)`, for all
/// names `a` and `b`, every atom `c` and any two assignment operators.
pub proof fn lemma_assignment_groups_right(
    a: SpannedToken,
    first: SpannedToken,
    b: SpannedToken,
    second: SpannedToken,
    c: SpannedToken,
)
    requires
        a.token is Identifier,
        b.token is Identifier,
        is_atom(c.token),
        is_assignment(first.token),
        is_assignment(second.token),
    ensures
        expression_at(seq![a, first, b, second, c], 0, 0) == Ok::<(ExprView, int), ParseError>(
            (assign(atom(a), first, assign(atom(b), second, atom(c))), 5),
        ),
{
    let tokens = seq![a, first, b, second, c];
    lemma_atom(tokens, 4, 0);
    let bc = assign(atom(b), second, atom(c));
    let abc = assign(atom(a), first, bc);
    assert(primary_at(tokens, 0) == Ok::<(ExprView, int), ParseError>((atom(a), 1)));
    assert(primary_at(tokens, 2) == Ok::<(ExprView, int), ParseError>((atom(b), 3)));
    assert(operator_at(tokens, 3, atom(b)) == Ok::<(ExprView, int), ParseError>((bc, 5)));
    assert(continued_at(tokens, 5, bc, 0) == Ok::<(ExprView, int), ParseError>((bc, 5)));
    assert(continued_at(tokens, 3, atom(b), 0) == Ok::<(ExprView, int), ParseError>((bc, 5)));
    assert(expression_at(tokens, 2, 0) == Ok::<(ExprView, int), ParseError>((bc, 5)));
    assert(operator_at(tokens, 1, atom(a)) == Ok::<(ExprView, int), ParseError>((abc, 5)));
    assert(continued_at(tokens, 5, abc, 0) == Ok::<(ExprView, int), ParseError>((abc, 5)));
    assert(continued_at(tokens, 1, atom(a), 0) == Ok::<(ExprView, int), ParseError>((abc, 5)));
}

/// The tighter of two operators binds first, whichever comes first: `a + b *
/// c` is `a + (b * c)` and `a * b + c` is `(a * b) + c`, for all atoms and
/// for any two arithmetic or comparison operators of which `tighter` is of
/// the higher level.
pub proof fn lemma_tighter_binds_first(
    a: SpannedToken,
    looser: SpannedToken,
    b: SpannedToken,
    tighter: SpannedToken,
    c: SpannedToken,
)
    requires
        is_atom(a.token),
        is_atom(b.token),
        is_atom(c.token),
        is_binary(looser.token),
        is_binary(tighter.token),
        precedence_of(looser.token).rank() < precedence_of(tighter.token).rank(),
    ensures
        expression_at(seq![a, looser, b, tighter, c], 0, 0) == Ok::<(ExprView, int), ParseError>(
            (binary(atom(a), looser, binary(atom(b), tighter, atom(c))), 5),
        ),
        expression_at(seq![a, tighter, b, looser, c], 0, 0) == Ok::<(ExprView, int), ParseError>(
            (binary(binary(atom(a), tighter, atom(b)), looser, atom(c)), 5),
        ),
{
    let loose = precedence_of(looser.token).operand_limit();
    let tight = precedence_of(tighter.token).operand_limit();
    {
        let tokens = seq![a, looser, b, tighter, c];
        lemma_atom(tokens, 4, tight);
        let bc = binary(atom(b), tighter, atom(c));
        let abc = binary(atom(a), looser, bc);
        assert(primary_at(tokens, 0) == Ok::<(ExprView, int), ParseError>((atom(a), 1)));
        assert(primary_at(tokens, 2) == Ok::<(ExprView, int), ParseError>((atom(b), 3)));
        assert(operator_at(tokens, 3, atom(b)) == Ok::<(ExprView, int), ParseError>((bc, 5)));
        assert(continued_at(tokens, 5, bc, loose) == Ok::<(ExprView, int), ParseError>((bc, 5)));
        assert(continued_at(tokens, 3, atom(b), loose) == Ok::<(ExprView, int), ParseError>(
            (bc, 5),
        ));
        assert(expression_at(tokens, 2, loose) == Ok::<(ExprView, int), ParseError>((bc, 5)));
        assert(operator_at(tokens, 1, atom(a)) == Ok::<(ExprView, int), ParseError>((abc, 5)));
        assert(continued_at(tokens, 5, abc, 0) == Ok::<(ExprView, int), ParseError>((abc, 5)));
        assert(continued_at(tokens, 1, atom(a), 0) == Ok::<(ExprView, int), ParseError>(
            (abc, 5),
        ));
    }
    {
        let tokens = seq![a, tighter, b, looser, c];
        lemma_atom(tokens, 2, tight);
        lemma_atom(tokens, 4, loose);
        let ab = binary(atom(a), tighter, atom(b));
        let abc = binary(ab, looser, atom(c));
        assert(primary_at(tokens, 0) == Ok::<(ExprView, int), ParseError>((atom(a), 1)));
        assert(operator_at(tokens, 1, atom(a)) == Ok::<(ExprView, int), ParseError>((ab, 3)));
        assert(operator_at(tokens, 3, ab) == Ok::<(ExprView, int), ParseError>((abc, 5)));
        assert(continued_at(tokens, 5, abc, 0) == Ok::<(ExprView, int), ParseError>((abc, 5)));
        assert(continued_at(tokens, 3, ab, 0) == Ok::<(ExprView, int), ParseError>((abc, 5)));
        assert(continued_at(tokens, 1, atom(a), 0) == Ok::<(ExprView, int), ParseError>(
            (abc, 5),
        ));
    }
}

/// A literal is not assigned to: `1 = a` fails with `RValueAssign` and the
/// assignment operator, for every literal, every assignment operator and
/// every atom.
pub proof fn lemma_literal_is_not_assigned(literal: SpannedToken, operator: SpannedToken, a: SpannedToken)
    requires
        literal.token.is_literal(),
        is_assignment(operator.token),
        is_atom(a.token),
    ensures
        expression_at(seq![literal, operator, a], 0, 0) == Err::<(ExprView, int), ParseError>(
            ParseError::RValueAssign(operator),
        ),
{
    let tokens = seq![literal, operator, a];
    lemma_atom(tokens, 2, 0);
    assert(primary_at(tokens, 0) == Ok::<(ExprView, int), ParseError>((atom(literal), 1)));
    assert(operator_at(tokens, 1, atom(literal)) == Err::<(ExprView, int), ParseError>(
        ParseError::RValueAssign(operator),
    ));
    assert(continued_at(tokens, 1, atom(literal), 0) == Err::<(ExprView, int), ParseError>(
        ParseError::RValueAssign(operator),
    ));
}

/// An indexing is assigned to: `a[0] = 1` is the assignment to the indexing,
/// for all atoms and every assignment operator.
pub proof fn lemma_indexing_is_assigned(
    a: SpannedToken,
    open: SpannedToken,
    index: SpannedToken,
    close: SpannedToken,
    operator: SpannedToken,
    value: SpannedToken,
)
    requires
        is_atom(a.token),
        is_atom(index.token),
        is_atom(value.token),
        open.token == Token::Delimiter(Delimiter::LBrack),
        close.token == Token::Delimiter(Delimiter::RBrack),
        is_assignment(operator.token),
    ensures
        expression_at(seq![a, open, index, close, operator, value], 0, 0) == Ok::<
            (ExprView, int),
            ParseError,
        >(
            (
                assign(
                    ExprView::Get { target: Box::new(atom(a)), index: Box::new(atom(index)) },
                    operator,
                    atom(value),
                ),
                6,
            ),
        ),
{
    let tokens = seq![a, open, index, close, operator, value];
    lemma_atom(tokens, 2, 0);
    lemma_atom(tokens, 5, 0);
    let get = ExprView::Get { target: Box::new(atom(a)), index: Box::new(atom(index)) };
    let whole = assign(get, operator, atom(value));
    assert(primary_at(tokens, 0) == Ok::<(ExprView, int), ParseError>((atom(a), 1)));
    assert(operator_at(tokens, 1, atom(a)) == Ok::<(ExprView, int), ParseError>((get, 4)));
    assert(operator_at(tokens, 4, get) == Ok::<(ExprView, int), ParseError>((whole, 6)));
    assert(continued_at(tokens, 6, whole, 0) == Ok::<(ExprView, int), ParseError>((whole, 6)));
    assert(continued_at(tokens, 4, get, 0) == Ok::<(ExprView, int), ParseError>((whole, 6)));
    assert(continued_at(tokens, 1, atom(a), 0) == Ok::<(ExprView, int), ParseError>((whole, 6)));
}

/// An indirection is assigned to: `*p = 1` is the assignment to the
/// indirection, for all atoms and every assignment operator.
pub proof fn lemma_indirection_is_assigned(
    star: SpannedToken,
    p: SpannedToken,
    operator: SpannedToken,
    value: SpannedToken,
)
    requires
        star.token == Token::Operator(Operator::Star),
        is_atom(p.token),
        is_atom(value.token),
        is_assignment(operator.token),
    ensures
        expression_at(seq![star, p, operator, value], 0, 0) == Ok::<(ExprView, int), ParseError>(
            (
                assign(
                    ExprView::Unary { operator: star, right: Box::new(atom(p)) },
                    operator,
                    atom(value),
                ),
                4,
            ),
        ),
{
    let tokens = seq![star, p, operator, value];
    lemma_atom(tokens, 1, 19);
    lemma_atom(tokens, 3, 0);
    let target = ExprView::Unary { operator: star, right: Box::new(atom(p)) };
    let whole = assign(target, operator, atom(value));
    assert(primary_at(tokens, 0) == Ok::<(ExprView, int), ParseError>((target, 2)));
    assert(operator_at(tokens, 2, target) == Ok::<(ExprView, int), ParseError>((whole, 4)));
    assert(continued_at(tokens, 4, whole, 0) == Ok::<(ExprView, int), ParseError>((whole, 4)));
    assert(continued_at(tokens, 2, target, 0) == Ok::<(ExprView, int), ParseError>((whole, 4)));
}

/// An `auto` statement after the first statement of a block is refused:
/// wherever the rest of a block starts with `auto` and a statement was read
/// before, the block fails with `AutoRedecl` and that token.
pub proof fn lemma_late_auto_is_refused(tokens: Seq<SpannedToken>, position: int, read: Seq<StmtView>)
    requires
        token_at(tokens, position).token == Token::Keyword(Keyword::Auto),
    ensures
        block_items_at(tokens, position, read, false) == Err::<(StmtView, int), ParseError>(
            ParseError::AutoRedecl(token_at(tokens, position)),
        ),
{
}

/// `{ x = 1; auto a; }` fails with `AutoRedecl` and its `auto`: for all names
/// `x` and `a`, every atom in the place of `1` and every assignment
/// operator.
pub proof fn lemma_auto_after_a_statement(
    open: SpannedToken,
    x: SpannedToken,
    operator: SpannedToken,
    value: SpannedToken,
    semicolon: SpannedToken,
    auto: SpannedToken,
    rest: Seq<SpannedToken>,
)
    requires
        open.token == Token::Delimiter(Delimiter::LBrace),
        x.token is Identifier,
        is_assignment(operator.token),
        is_atom(value.token),
        semicolon.token == Token::Delimiter(Delimiter::Semicolon),
        auto.token == Token::Keyword(Keyword::Auto),
    ensures
        block_at(seq![open, x, operator, value, semicolon, auto] + rest, 0) == Err::<
            (StmtView, int),
            ParseError,
        >(ParseError::AutoRedecl(auto)),
{
    let tokens = seq![open, x, operator, value, semicolon, auto] + rest;
    let assigned = assign(atom(x), operator, atom(value));
    lemma_atom(tokens, 3, 0);
    assert(primary_at(tokens, 1) == Ok::<(ExprView, int), ParseError>((atom(x), 2)));
    assert(operator_at(tokens, 2, atom(x)) == Ok::<(ExprView, int), ParseError>((assigned, 4)));
    assert(continued_at(tokens, 4, assigned, 0) == Ok::<(ExprView, int), ParseError>(
        (assigned, 4),
    ));
    assert(continued_at(tokens, 2, atom(x), 0) == Ok::<(ExprView, int), ParseError>(
        (assigned, 4),
    ));
    assert(statement_at(tokens, 1) == Ok::<(StmtView, int), ParseError>(
        (StmtView::Expression { expression: assigned }, 5),
    ));
    lemma_late_auto_is_refused(
        tokens,
        5,
        Seq::<StmtView>::empty().push(StmtView::Expression { expression: assigned }),
    );
    assert(block_items_at(tokens, 1, Seq::empty(), true) == Err::<(StmtView, int), ParseError>(
        ParseError::AutoRedecl(auto),
    ));
}

/// `{ auto a; x = 1; }` is a block of the `auto` statement and the
/// assignment: for all names `a` and `x`, every atom in the place of `1` and
/// every assignment operator.
pub proof fn lemma_auto_first_in_a_block(
    open: SpannedToken,
    auto: SpannedToken,
    a: SpannedToken,
    first: SpannedToken,
    x: SpannedToken,
    operator: SpannedToken,
    value: SpannedToken,
    second: SpannedToken,
    close: SpannedToken,
)
    requires
        open.token == Token::Delimiter(Delimiter::LBrace),
        auto.token == Token::Keyword(Keyword::Auto),
        a.token is Identifier,
        first.token == Token::Delimiter(Delimiter::Semicolon),
        x.token is Identifier,
        is_assignment(operator.token),
        is_atom(value.token),
        second.token == Token::Delimiter(Delimiter::Semicolon),
        close.token == Token::Delimiter(Delimiter::RBrace),
    ensures
        block_at(seq![open, auto, a, first, x, operator, value, second, close], 0) == Ok::<
            (StmtView, int),
            ParseError,
        >(
            (
                StmtView::Block {
                    statements: seq![
                        StmtView::Auto { declarations: seq![AutoDecl { name: a, size: None }] },
                        StmtView::Expression { expression: assign(atom(x), operator, atom(value)) },
                    ],
                },
                9,
            ),
        ),
{
    let tokens = seq![open, auto, a, first, x, operator, value, second, close];
    let declared = StmtView::Auto { declarations: seq![AutoDecl { name: a, size: None }] };
    let assigned = assign(atom(x), operator, atom(value));
    let stated = StmtView::Expression { expression: assigned };
    assert(Seq::<AutoDecl>::empty().push(AutoDecl { name: a, size: None }) =~= seq![
        AutoDecl { name: a, size: None },
    ]);
    assert(auto_declarations_at(tokens, 2, Seq::empty()) == Ok::<(StmtView, int), ParseError>(
        (declared, 4),
    ));
    assert(auto_at(tokens, 1) == Ok::<(StmtView, int), ParseError>((declared, 4)));
    lemma_atom(tokens, 6, 0);
    assert(primary_at(tokens, 4) == Ok::<(ExprView, int), ParseError>((atom(x), 5)));
    assert(operator_at(tokens, 5, atom(x)) == Ok::<(ExprView, int), ParseError>((assigned, 7)));
    assert(continued_at(tokens, 7, assigned, 0) == Ok::<(ExprView, int), ParseError>(
        (assigned, 7),
    ));
    assert(continued_at(tokens, 5, atom(x), 0) == Ok::<(ExprView, int), ParseError>(
        (assigned, 7),
    ));
    assert(statement_at(tokens, 4) == Ok::<(StmtView, int), ParseError>((stated, 8)));
    let one = Seq::<StmtView>::empty().push(declared);
    let both = one.push(stated);
    assert(both =~= seq![declared, stated]);
    assert(block_items_at(tokens, 8, both, false) == Ok::<(StmtView, int), ParseError>(
        (StmtView::Block { statements: both }, 9),
    ));
    assert(block_items_at(tokens, 4, one, false) == Ok::<(StmtView, int), ParseError>(
        (StmtView::Block { statements: both }, 9),
    ));
    assert(block_items_at(tokens, 1, Seq::empty(), true) == Ok::<(StmtView, int), ParseError>(
        (StmtView::Block { statements: both }, 9),
    ));
}

/// `a[3] 1, 2;` is one global declaration with the size `3` and the
/// initializers `1` and `2`: for every name, every integer as the size and
/// any two literals.
pub proof fn lemma_vector_with_initializers(
    a: SpannedToken,
    open: SpannedToken,
    size: SpannedToken,
    close: SpannedToken,
    first: SpannedToken,
    comma: SpannedToken,
    second: SpannedToken,
    semicolon: SpannedToken,
)
    requires
        a.token is Identifier,
        open.token == Token::Delimiter(Delimiter::LBrack),
        size.token is Integer,
        close.token == Token::Delimiter(Delimiter::RBrack),
        first.token.is_literal(),
        comma.token == Token::Delimiter(Delimiter::Comma),
        second.token.is_literal(),
        semicolon.token == Token::Delimiter(Delimiter::Semicolon),
    ensures
        top_level_at(seq![a, open, size, close, first, comma, second, semicolon], 0) == Ok::<
            (TopLevelView, int),
            ParseError,
        >(
            (
                TopLevelView::Global(
                    seq![
                        GlobalDeclView {
                            name: a,
                            size: Some(size),
                            initializer: Some(seq![first, second]),
                        },
                    ],
                ),
                8,
            ),
        ),
{
    let tokens = seq![a, open, size, close, first, comma, second, semicolon];
    let decl = GlobalDeclView { name: a, size: Some(size), initializer: Some(seq![first, second]) };
    assert(size_at(tokens, 1) == Ok::<(Option<SpannedToken>, int), ParseError>((Some(size), 4)));
    assert(seq![first].push(second) =~= seq![first, second]);
    assert(initializers_at(tokens, 7, seq![first, second]) == Ok::<
        (Seq<SpannedToken>, int),
        ParseError,
    >((seq![first, second], 7)));
    assert(initializers_at(tokens, 5, seq![first]) == Ok::<(Seq<SpannedToken>, int), ParseError>(
        (seq![first, second], 7),
    ));
    assert(declaration_at(tokens, 1, a) == Ok::<(GlobalDeclView, int), ParseError>((decl, 7)));
    assert(Seq::<GlobalDeclView>::empty().push(decl) =~= seq![decl]);
    assert(declarations_at(tokens, 1, a, Seq::empty()) == Ok::<
        (Seq<GlobalDeclView>, int),
        ParseError,
    >((seq![decl], 8)));
}

/// `a[] 1;` fails with `UnspecifiedArraySizeInitialization` and the
/// initializer: for every name and every literal, whatever follows.
pub proof fn lemma_initializer_without_size(
    a: SpannedToken,
    open: SpannedToken,
    close: SpannedToken,
    first: SpannedToken,
    rest: Seq<SpannedToken>,
)
    requires
        a.token is Identifier,
        open.token == Token::Delimiter(Delimiter::LBrack),
        close.token == Token::Delimiter(Delimiter::RBrack),
        first.token.is_literal(),
    ensures
        top_level_at(seq![a, open, close, first] + rest, 0) == Err::<
            (TopLevelView, int),
            ParseError,
        >(ParseError::UnspecifiedArraySizeInitialization(first)),
{
    let tokens = seq![a, open, close, first] + rest;
    assert(size_at(tokens, 1) == Ok::<(Option<SpannedToken>, int), ParseError>((None, 3)));
    assert(declaration_at(tokens, 1, a) == Err::<(GlobalDeclView, int), ParseError>(
        ParseError::UnspecifiedArraySizeInitialization(first),
    ));
    assert(declarations_at(tokens, 1, a, Seq::empty()) == Err::<
        (Seq<GlobalDeclView>, int),
        ParseError,
    >(ParseError::UnspecifiedArraySizeInitialization(first)));
}

} // verus!
