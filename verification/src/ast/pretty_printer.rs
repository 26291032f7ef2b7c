//! A printer that renders a tree as text: each node as a list in parentheses
//! with its operator or its kind first. An expression stands on one line; a
//! statement that holds others has them on lines of their own, indented by
//! two spaces a level.

use vstd::prelude::*;
use vstd::string::StringExecFns;
use crate::ast::visitor::{
    walk_expr, walk_item, walk_stmt, ExprVisitor, ItemVisitor, StmtVisitor,
};
use crate::ast::{
    expr_views, global_views, stmt_views, top_level_views, AutoDecl, Expr, ExprView, Function,
    GlobalDecl, GlobalDeclView, Program, Stmt, StmtView, TopLevel, TopLevelView,
};
use crate::lexer::token::{Delimiter, Keyword, Operator, SpannedToken, Token, TokenView};

verus! {

/// The word of a keyword.
pub open spec fn keyword_text(keyword: Keyword) -> Seq<char> {
    match keyword {
        Keyword::Auto => "auto"@,
        Keyword::Extrn => "extrn"@,
        Keyword::If => "if"@,
        Keyword::Else => "else"@,
        Keyword::While => "while"@,
        Keyword::Switch => "switch"@,
        Keyword::Case => "case"@,
        Keyword::Default => "default"@,
        Keyword::Return => "return"@,
        Keyword::Goto => "goto"@,
    }
}

/// The characters of an operator.
pub open spec fn operator_text(operator: Operator) -> Seq<char> {
    match operator {
        Operator::Plus => "+"@,
        Operator::Minus => "-"@,
        Operator::Star => "*"@,
        Operator::Slash => "/"@,
        Operator::Percent => "%"@,
        Operator::Amp => "&"@,
        Operator::Bar => "|"@,
        Operator::Caret => "^"@,
        Operator::LShift => "<<"@,
        Operator::RShift => ">>"@,
        Operator::Bang => "!"@,
        Operator::Tilde => "~"@,
        Operator::Equal => "=="@,
        Operator::NotEqual => "!="@,
        Operator::Less => "<"@,
        Operator::Greater => ">"@,
        Operator::LessEq => "<="@,
        Operator::GreaterEq => ">="@,
        Operator::Inc => "++"@,
        Operator::Dec => "--"@,
        Operator::Assign => "="@,
        Operator::AssignPlus => "=+"@,
        Operator::AssignMinus => "=-"@,
        Operator::AssignStar => "=*"@,
        Operator::AssignSlash => "=/"@,
        Operator::AssignPercent => "=%"@,
        Operator::AssignAmp => "=&"@,
    }
}

/// The character of a delimiter.
pub open spec fn delimiter_text(delimiter: Delimiter) -> Seq<char> {
    match delimiter {
        Delimiter::LParen => "("@,
        Delimiter::RParen => ")"@,
        Delimiter::LBrack => "["@,
        Delimiter::RBrack => "]"@,
        Delimiter::LBrace => "{"@,
        Delimiter::RBrace => "}"@,
        Delimiter::Comma => ","@,
        Delimiter::Semicolon => ";"@,
        Delimiter::Colon => ":"@,
        Delimiter::QMark => "?"@,
    }
}

/// The character of a decimal digit.
pub open spec fn digit_char(digit: int) -> char {
    ('0' as int + digit) as char
}

/// The decimal digits of a number, without leading zeros.
pub open spec fn decimal_text(n: nat) -> Seq<char>
    decreases n,
{
    if n < 10 {
        seq![digit_char(n as int)]
    } else {
        decimal_text(n / 10).push(digit_char((n % 10) as int))
    }
}

/// The decimal digits of a number, after a `-` where it is negative.
pub open spec fn integer_text(n: int) -> Seq<char> {
    if n < 0 {
        seq!['-'] + decimal_text((-n) as nat)
    } else {
        decimal_text(n as nat)
    }
}

/// The characters that stand for a character inside a string literal: the
/// escape character `*` goes before a line feed, a tab, the null character,
/// `*` and `"`.
pub open spec fn escaped_char(c: char) -> Seq<char> {
    if c == '\n' {
        seq!['*', 'n']
    } else if c == '\t' {
        seq!['*', 't']
    } else if c == '\0' {
        seq!['*', '0']
    } else if c == '*' {
        seq!['*', '*']
    } else if c == '"' {
        seq!['*', '"']
    } else {
        seq![c]
    }
}

/// The characters that stand for a text inside a string literal.
pub open spec fn escaped_text(content: Seq<char>) -> Seq<char>
    decreases content.len(),
{
    if content.len() == 0 {
        Seq::empty()
    } else {
        escaped_text(content.drop_last()) + escaped_char(content.last())
    }
}

/// The text of a token: a word, an operator or a delimiter as it is written,
/// a name as it is, a number in decimal, a string literal in quotes with its
/// escapes, and the value of a character literal in decimal between single
/// quotes.
pub open spec fn token_text(token: TokenView) -> Seq<char> {
    match token {
        TokenView::Keyword(keyword) => keyword_text(keyword),
        TokenView::Operator(operator) => operator_text(operator),
        TokenView::Delimiter(delimiter) => delimiter_text(delimiter),
        TokenView::Identifier(name) => name,
        TokenView::Integer(value) => integer_text(value as int),
        TokenView::StringLiteral(content) => seq!['"'] + escaped_text(content) + seq!['"'],
        TokenView::CharLiteral(value) => seq!['\''] + integer_text(value as int) + seq!['\''],
        TokenView::EOF => "EOF"@,
    }
}

/// The parts of a list with a space between one and the next.
pub open spec fn joined(parts: Seq<Seq<char>>) -> Seq<char>
    decreases parts.len(),
{
    if parts.len() == 0 {
        Seq::empty()
    } else if parts.len() == 1 {
        parts[0]
    } else {
        joined(parts.drop_last()) + seq![' '] + parts.last()
    }
}

/// The parts of a list, each preceded by a space.
pub open spec fn spaced(parts: Seq<Seq<char>>) -> Seq<char>
    decreases parts.len(),
{
    if parts.len() == 0 {
        Seq::empty()
    } else {
        spaced(parts.drop_last()) + seq![' '] + parts.last()
    }
}

/// The parts of a list, each followed by a line feed.
pub open spec fn lines(parts: Seq<Seq<char>>) -> Seq<char>
    decreases parts.len(),
{
    if parts.len() == 0 {
        Seq::empty()
    } else {
        lines(parts.drop_last()) + parts.last() + seq!['\n']
    }
}

/// A list on one line: in parentheses the head, and each part after a space.
pub open spec fn listed(head: Seq<char>, parts: Seq<Seq<char>>) -> Seq<char> {
    seq!['('] + head + spaced(parts) + seq![')']
}

/// A list over several lines: the indentation, the opening parenthesis and
/// the head on the first line, each part on a line of its own, and the
/// indentation and the closing parenthesis on the last.
pub open spec fn nested(indent: Seq<char>, head: Seq<char>, parts: Seq<Seq<char>>) -> Seq<char> {
    indent + seq!['('] + head + seq!['\n'] + lines(parts) + indent + seq![')']
}

/// The indentation and a body in parentheses.
pub open spec fn inline(indent: Seq<char>, body: Seq<char>) -> Seq<char> {
    indent + seq!['('] + body + seq![')']
}

/// The texts of a sequence of tokens.
pub open spec fn token_texts(tokens: Seq<SpannedToken>) -> Seq<Seq<char>> {
    Seq::new(tokens.len(), |i: int| token_text(tokens[i].token@))
}

/// A name and, where there is one, a size in brackets after it.
pub open spec fn sized_text(name: SpannedToken, size: Option<SpannedToken>) -> Seq<char> {
    match size {
        Some(size) => token_text(name.token@) + seq!['['] + token_text(size.token@) + seq![']'],
        None => token_text(name.token@),
    }
}

/// The texts of a sequence of local declarations: each its name, and its
/// size in brackets.
pub open spec fn auto_texts(decls: Seq<AutoDecl>) -> Seq<Seq<char>> {
    Seq::new(decls.len(), |i: int| sized_text(decls[i].name, decls[i].size))
}

/// The text of a global declaration: its name, its size in brackets, and its
/// initializers after a space.
pub open spec fn global_text(decl: GlobalDeclView) -> Seq<char> {
    match decl.initializer {
        Some(list) => sized_text(decl.name, decl.size) + seq![' '] + joined(token_texts(list)),
        None => sized_text(decl.name, decl.size),
    }
}

/// The texts of a sequence of global declarations.
pub open spec fn global_texts(decls: Seq<GlobalDeclView>) -> Seq<Seq<char>> {
    Seq::new(decls.len(), |i: int| global_text(decls[i]))
}

/// The text of an expression: a name or a literal as its token, and any
/// other node as a list on one line, headed by its operator or its kind.
pub open spec fn render_expr(expr: ExprView) -> Seq<char>
    decreases expr,
{
    match expr {
        ExprView::Assign { lvalue, operator, value } => listed(
            token_text(operator.token@),
            seq![render_expr(*lvalue), render_expr(*value)],
        ),
        ExprView::Binary { left, operator, right } => listed(
            token_text(operator.token@),
            seq![render_expr(*left), render_expr(*right)],
        ),
        ExprView::Call { callee, arguments } => listed(
            "call"@,
            seq![render_expr(*callee)] + render_exprs(arguments),
        ),
        ExprView::Grouping { expression } => listed("group"@, seq![render_expr(*expression)]),
        ExprView::Literal { value } => token_text(value.token@),
        ExprView::Unary { operator, right } => listed(
            token_text(operator.token@),
            seq![render_expr(*right)],
        ),
        ExprView::Bitwise { left, operator, right } => listed(
            token_text(operator.token@),
            seq![render_expr(*left), render_expr(*right)],
        ),
        ExprView::Variable { name } => token_text(name.token@),
        ExprView::Get { target, index } => listed(
            "get"@,
            seq![render_expr(*target), render_expr(*index)],
        ),
        ExprView::Ternary { condition, then_branch, else_branch } => listed(
            "?:"@,
            seq![render_expr(*condition), render_expr(*then_branch), render_expr(*else_branch)],
        ),
        ExprView::Postfix { left, operator } => listed(
            token_text(operator.token@) + " post"@,
            seq![render_expr(*left)],
        ),
    }
}

/// The texts of a sequence of expressions.
pub open spec fn render_exprs(exprs: Seq<ExprView>) -> Seq<Seq<char>>
    decreases exprs,
{
    if exprs.len() == 0 {
        Seq::empty()
    } else {
        render_exprs(exprs.drop_last()).push(render_expr(exprs.last()))
    }
}

/// The texts of a sequence of expressions are as many as the expressions,
/// each the text of the expression in its place.
pub proof fn lemma_render_exprs(exprs: Seq<ExprView>)
    ensures
        render_exprs(exprs).len() == exprs.len(),
        forall|i: int| 0 <= i < exprs.len() ==> #[trigger] render_exprs(exprs)[i] == render_expr(
            exprs[i],
        ),
    decreases exprs.len(),
{
    if exprs.len() > 0 {
        lemma_render_exprs(exprs.drop_last());
    }
}

/// The indentation of one level.
pub open spec fn indent_unit() -> Seq<char> {
    seq![' ', ' ']
}

/// The indentation of a number of levels.
pub open spec fn indent_text(levels: nat) -> Seq<char>
    decreases levels,
{
    if levels == 0 {
        Seq::empty()
    } else {
        indent_text((levels - 1) as nat) + indent_unit()
    }
}

/// The text of a statement at an indentation. A statement that holds no
/// other is a list on one line; one that holds others has each of them on
/// lines of its own, one level deeper. The `else` of an `if` is such a list
/// in its turn, one level deeper than the `if`.
pub open spec fn render_stmt(stmt: StmtView, indent: Seq<char>) -> Seq<char>
    decreases stmt,
{
    let deeper = indent + indent_unit();
    match stmt {
        StmtView::Block { statements } => nested(
            indent,
            "block"@,
            render_stmts(statements, deeper),
        ),
        StmtView::Auto { declarations } => inline(
            indent,
            "auto "@ + joined(auto_texts(declarations)),
        ),
        StmtView::Extrn { names } => inline(indent, "extrn "@ + joined(token_texts(names))),
        StmtView::Expression { expression } => inline(indent, "expr "@ + render_expr(expression)),
        StmtView::If { condition, then_branch, else_branch } => nested(
            indent,
            "if "@ + render_expr(condition),
            match else_branch {
                Some(stmt) => seq![
                    render_stmt(*then_branch, deeper),
                    nested(deeper, "else"@, seq![render_stmt(*stmt, deeper + indent_unit())]),
                ],
                None => seq![render_stmt(*then_branch, deeper)],
            },
        ),
        StmtView::While { condition, body } => nested(
            indent,
            "while "@ + render_expr(condition),
            seq![render_stmt(*body, deeper)],
        ),
        StmtView::Switch { condition, cases } => nested(
            indent,
            "switch "@ + render_expr(condition),
            render_stmts(cases, deeper),
        ),
        StmtView::Case { value, body } => nested(
            indent,
            "case "@ + token_text(value.token@),
            seq![render_stmt(*body, deeper)],
        ),
        StmtView::Default { body } => nested(
            indent,
            "default"@,
            seq![render_stmt(*body, deeper)],
        ),
        StmtView::Label { name, body } => nested(
            indent,
            "label "@ + token_text(name.token@),
            seq![render_stmt(*body, deeper)],
        ),
        StmtView::Goto { expression } => inline(indent, "goto "@ + render_expr(expression)),
        StmtView::Return { value } => match value {
            Some(expr) => inline(indent, "return "@ + render_expr(expr)),
            None => inline(indent, "return"@),
        },
        StmtView::Null => inline(indent, "null"@),
    }
}

/// The texts of a sequence of statements at an indentation.
pub open spec fn render_stmts(stmts: Seq<StmtView>, indent: Seq<char>) -> Seq<Seq<char>>
    decreases stmts,
{
    if stmts.len() == 0 {
        Seq::empty()
    } else {
        render_stmts(stmts.drop_last(), indent).push(render_stmt(stmts.last(), indent))
    }
}

/// The texts of a sequence of statements are as many as the statements,
/// each the text of the statement in its place.
pub proof fn lemma_render_stmts(stmts: Seq<StmtView>, indent: Seq<char>)
    ensures
        render_stmts(stmts, indent).len() == stmts.len(),
        forall|i: int|
            0 <= i < stmts.len() ==> #[trigger] render_stmts(stmts, indent)[i] == render_stmt(
                stmts[i],
                indent,
            ),
    decreases stmts.len(),
{
    if stmts.len() > 0 {
        lemma_render_stmts(stmts.drop_last(), indent);
    }
}

/// The text of an item at an indentation: a function as a list over several
/// lines, headed by its name and its parameters in parentheses, with its
/// body one level deeper; the global declarations of one statement as a list
/// on one line. The list itself is not indented.
pub open spec fn render_item(item: TopLevelView, indent: Seq<char>) -> Seq<char> {
    match item {
        TopLevelView::Function(function) => nested(
            Seq::empty(),
            "fn "@ + token_text(function.name.token@) + " ("@ + joined(
                token_texts(function.params),
            ) + ")"@,
            seq![render_stmt(function.body, indent + indent_unit())],
        ),
        TopLevelView::Global(decls) => inline(
            Seq::empty(),
            "global "@ + joined(global_texts(decls)),
        ),
    }
}

/// The texts of a sequence of items, with an empty line between one and the
/// next.
pub open spec fn render_items(items: Seq<TopLevelView>, indent: Seq<char>) -> Seq<char>
    decreases items.len(),
{
    if items.len() == 0 {
        Seq::empty()
    } else if items.len() == 1 {
        render_item(items[0], indent)
    } else {
        render_items(items.drop_last(), indent) + "\n\n"@ + render_item(items.last(), indent)
    }
}

/// The texts of a sequence of strings.
pub open spec fn string_views(parts: Seq<String>) -> Seq<Seq<char>> {
    Seq::new(parts.len(), |i: int| parts[i]@)
}

/// The views of the expressions that a sequence of references points to.
pub open spec fn views_of(exprs: Seq<&Expr>) -> Seq<ExprView> {
    Seq::new(exprs.len(), |i: int| exprs[i].view())
}

/// The word of a keyword.
fn keyword_word(keyword: Keyword) -> (word: &'static str)
    ensures
        word@ == keyword_text(keyword),
{
    match keyword {
        Keyword::Auto => "auto",
        Keyword::Extrn => "extrn",
        Keyword::If => "if",
        Keyword::Else => "else",
        Keyword::While => "while",
        Keyword::Switch => "switch",
        Keyword::Case => "case",
        Keyword::Default => "default",
        Keyword::Return => "return",
        Keyword::Goto => "goto",
    }
}

/// The characters of an operator.
fn operator_word(operator: Operator) -> (word: &'static str)
    ensures
        word@ == operator_text(operator),
{
    match operator {
        Operator::Plus => "+",
        Operator::Minus => "-",
        Operator::Star => "*",
        Operator::Slash => "/",
        Operator::Percent => "%",
        Operator::Amp => "&",
        Operator::Bar => "|",
        Operator::Caret => "^",
        Operator::LShift => "<<",
        Operator::RShift => ">>",
        Operator::Bang => "!",
        Operator::Tilde => "~",
        Operator::Equal => "==",
        Operator::NotEqual => "!=",
        Operator::Less => "<",
        Operator::Greater => ">",
        Operator::LessEq => "<=",
        Operator::GreaterEq => ">=",
        Operator::Inc => "++",
        Operator::Dec => "--",
        Operator::Assign => "=",
        Operator::AssignPlus => "=+",
        Operator::AssignMinus => "=-",
        Operator::AssignStar => "=*",
        Operator::AssignSlash => "=/",
        Operator::AssignPercent => "=%",
        Operator::AssignAmp => "=&",
    }
}

/// The character of a delimiter.
fn delimiter_word(delimiter: Delimiter) -> (word: &'static str)
    ensures
        word@ == delimiter_text(delimiter),
{
    match delimiter {
        Delimiter::LParen => "(",
        Delimiter::RParen => ")",
        Delimiter::LBrack => "[",
        Delimiter::RBrack => "]",
        Delimiter::LBrace => "{",
        Delimiter::RBrace => "}",
        Delimiter::Comma => ",",
        Delimiter::Semicolon => ";",
        Delimiter::Colon => ":",
        Delimiter::QMark => "?",
    }
}

/// Appends the decimal digits of a number.
fn push_decimal(out: &mut String, n: u64)
    ensures
        final(out)@ == old(out)@ + decimal_text(n as nat),
    decreases n,
{
    if n >= 10 {
        push_decimal(out, n / 10);
    }
    let digit = (n % 10) as u8;
    out.push((('0' as u8) + digit) as char);
    assert(out@ =~= old(out)@ + decimal_text(n as nat));
}

/// Appends a number in decimal.
fn push_integer(out: &mut String, n: i64)
    ensures
        final(out)@ == old(out)@ + integer_text(n as int),
{
    if n < 0 {
        out.push('-');
        let magnitude: u64 = if n == i64::MIN {
            9223372036854775808
        } else {
            (-n) as u64
        };
        push_decimal(out, magnitude);
        assert(out@ =~= old(out)@ + integer_text(n as int));
    } else {
        push_decimal(out, n as u64);
    }
}

/// Appends the characters that stand for a text inside a string literal.
fn push_escaped(out: &mut String, content: &str)
    ensures
        final(out)@ == old(out)@ + escaped_text(content@),
{
    assert(old(out)@ + escaped_text(Seq::<char>::empty()) =~= old(out)@);
    for c in it: content.chars()
        invariant
            it.seq() == content@,
            out@ == old(out)@ + escaped_text(it.seq().take(it.index())),
    {
        let ghost before = it.seq().take(it.index());
        let ghost now = it.seq().take(it.index() + 1);
        assert(now.drop_last() =~= before);
        assert(now.last() == c);
        match c {
            '\n' => {
                out.push('*');
                out.push('n');
            },
            '\t' => {
                out.push('*');
                out.push('t');
            },
            '\0' => {
                out.push('*');
                out.push('0');
            },
            '*' => {
                out.push('*');
                out.push('*');
            },
            '"' => {
                out.push('*');
                out.push('"');
            },
            _ => {
                out.push(c);
            },
        }
        assert(out@ =~= old(out)@ + (escaped_text(before) + escaped_char(c)));
    }
    assert(content@.take(content@.len() as int) =~= content@);
}

/// Appends the text of a token.
fn push_token(out: &mut String, token: &Token)
    ensures
        final(out)@ == old(out)@ + token_text(token@),
{
    match token {
        Token::Keyword(keyword) => out.append(keyword_word(*keyword)),
        Token::Operator(operator) => out.append(operator_word(*operator)),
        Token::Delimiter(delimiter) => out.append(delimiter_word(*delimiter)),
        Token::Identifier(name) => out.append(name.as_str()),
        Token::Integer(value) => push_integer(out, *value),
        Token::StringLiteral(content) => {
            out.push('"');
            push_escaped(out, content.as_str());
            out.push('"');
            assert(out@ =~= old(out)@ + token_text(token@));
        },
        Token::CharLiteral(value) => {
            out.push('\'');
            push_integer(out, *value);
            out.push('\'');
            assert(out@ =~= old(out)@ + token_text(token@));
        },
        Token::EOF => out.append("EOF"),
    }
}

/// The text of a token.
fn token_string(token: &Token) -> (text: String)
    ensures
        text@ == token_text(token@),
{
    let mut text = String::new();
    push_token(&mut text, token);
    assert(text@ =~= token_text(token@));
    text
}

/// Two texts, one after the other.
fn glued(first: &str, second: &str) -> (text: String)
    ensures
        text@ == first@ + second@,
{
    let mut text = String::from_str(first);
    text.append(second);
    text
}

/// Appends the parts of a list, with a space between one and the next.
fn push_joined(out: &mut String, parts: &Vec<String>)
    ensures
        final(out)@ == old(out)@ + joined(string_views(parts@)),
{
    let mut i: usize = 0;
    assert(string_views(parts@).take(0) =~= Seq::empty());
    assert(old(out)@ + Seq::<char>::empty() =~= old(out)@);
    while i < parts.len()
        invariant
            i <= parts@.len(),
            out@ == old(out)@ + joined(string_views(parts@).take(i as int)),
        decreases parts@.len() - i,
    {
        let ghost before = string_views(parts@).take(i as int);
        let ghost now = string_views(parts@).take(i + 1);
        assert(now.drop_last() =~= before);
        assert(now.last() == parts@[i as int]@);
        if i > 0 {
            out.push(' ');
        }
        out.append(parts[i].as_str());
        assert(out@ =~= old(out)@ + joined(now));
        i += 1;
    }
    assert(string_views(parts@).take(parts@.len() as int) =~= string_views(parts@));
}

/// A list on one line: in parentheses the head, and each part after a space.
fn list_text(head: &str, parts: &Vec<String>) -> (text: String)
    ensures
        text@ == listed(head@, string_views(parts@)),
{
    let ghost views = string_views(parts@);
    let mut text = String::new();
    text.push('(');
    text.append(head);
    assert(views.take(0) =~= Seq::empty());
    assert(text@ =~= seq!['('] + head@ + spaced(views.take(0)));
    let mut i: usize = 0;
    while i < parts.len()
        invariant
            i <= parts@.len(),
            views == string_views(parts@),
            text@ == seq!['('] + head@ + spaced(views.take(i as int)),
        decreases parts@.len() - i,
    {
        let ghost before = views.take(i as int);
        let ghost now = views.take(i + 1);
        assert(now.drop_last() =~= before);
        assert(now.last() == parts@[i as int]@);
        text.push(' ');
        text.append(parts[i].as_str());
        assert(text@ =~= seq!['('] + head@ + spaced(now));
        i += 1;
    }
    assert(views.take(parts@.len() as int) =~= views);
    text.push(')');
    text
}

/// A list over several lines: the head on the first, each part on a line of
/// its own, and the closing parenthesis on the last.
fn nested_text(indent: &str, head: &str, parts: &Vec<String>) -> (text: String)
    ensures
        text@ == nested(indent@, head@, string_views(parts@)),
{
    let ghost views = string_views(parts@);
    let mut text = String::from_str(indent);
    text.push('(');
    text.append(head);
    text.push('\n');
    let ghost opening = indent@ + seq!['('] + head@ + seq!['\n'];
    assert(views.take(0) =~= Seq::empty());
    assert(text@ =~= opening + lines(views.take(0)));
    let mut i: usize = 0;
    while i < parts.len()
        invariant
            i <= parts@.len(),
            views == string_views(parts@),
            text@ == opening + lines(views.take(i as int)),
        decreases parts@.len() - i,
    {
        let ghost before = views.take(i as int);
        let ghost now = views.take(i + 1);
        assert(now.drop_last() =~= before);
        assert(now.last() == parts@[i as int]@);
        text.append(parts[i].as_str());
        text.push('\n');
        assert(text@ =~= opening + lines(now));
        i += 1;
    }
    assert(views.take(parts@.len() as int) =~= views);
    text.append(indent);
    text.push(')');
    text
}

/// The indentation and a body in parentheses.
fn inline_text(indent: &str, body: &str) -> (text: String)
    ensures
        text@ == inline(indent@, body@),
{
    let mut text = String::from_str(indent);
    text.push('(');
    text.append(body);
    text.push(')');
    text
}

/// A list of one text.
fn one(first: String) -> (parts: Vec<String>)
    ensures
        string_views(parts@) == seq![first@],
{
    let mut parts: Vec<String> = Vec::new();
    parts.push(first);
    assert(string_views(parts@) =~= seq![first@]);
    parts
}

/// A list of two texts.
fn two(first: String, second: String) -> (parts: Vec<String>)
    ensures
        string_views(parts@) == seq![first@, second@],
{
    let mut parts: Vec<String> = Vec::new();
    parts.push(first);
    parts.push(second);
    assert(string_views(parts@) =~= seq![first@, second@]);
    parts
}

/// A list of three texts.
fn three(first: String, second: String, third: String) -> (parts: Vec<String>)
    ensures
        string_views(parts@) == seq![first@, second@, third@],
{
    let mut parts: Vec<String> = Vec::new();
    parts.push(first);
    parts.push(second);
    parts.push(third);
    assert(string_views(parts@) =~= seq![first@, second@, third@]);
    parts
}

/// The texts of tokens, with a space between one and the next.
fn tokens_text(tokens: &Vec<SpannedToken>) -> (text: String)
    ensures
        text@ == joined(token_texts(tokens@)),
{
    let mut parts: Vec<String> = Vec::new();
    let mut i: usize = 0;
    while i < tokens.len()
        invariant
            i <= tokens@.len(),
            parts@.len() == i,
            forall|j: int| 0 <= j < i ==> (#[trigger] parts@[j])@ == token_text(tokens@[j].token@),
        decreases tokens@.len() - i,
    {
        parts.push(token_string(&tokens[i].token));
        i += 1;
    }
    assert(string_views(parts@) =~= token_texts(tokens@));
    let mut text = String::new();
    push_joined(&mut text, &parts);
    assert(text@ =~= joined(token_texts(tokens@)));
    text
}

/// A name and, where there is one, a size in brackets after it.
fn sized_string(name: &SpannedToken, size: &Option<SpannedToken>) -> (text: String)
    ensures
        text@ == sized_text(*name, *size),
{
    let mut text = token_string(&name.token);
    match size {
        Some(size) => {
            text.push('[');
            push_token(&mut text, &size.token);
            text.push(']');
        },
        None => {},
    }
    text
}

/// The texts of the operands of a call.
fn operand_texts(operands: &Vec<Box<Expr>>, first: String) -> (parts: Vec<String>)
    ensures
        string_views(parts@) == seq![first@] + render_exprs(expr_views(operands@)),
    decreases operands, 1nat,
{
    let mut parts: Vec<String> = Vec::new();
    parts.push(first);
    let mut i: usize = 0;
    while i < operands.len()
        invariant
            i <= operands@.len(),
            parts@.len() == i + 1,
            parts@[0]@ == first@,
            forall|k: int|
                1 <= k <= i ==> (#[trigger] parts@[k])@ == render_expr(operands@[k - 1].view()),
        decreases operands@.len() - i,
    {
        parts.push(expr_text(&operands[i]));
        i += 1;
    }
    proof {
        lemma_render_exprs(expr_views(operands@));
    }
    assert(string_views(parts@) =~= seq![first@] + render_exprs(expr_views(operands@)));
    parts
}

/// The text of an operator between two operands.
fn infix_text(expr: &Expr) -> (text: String)
    requires
        expr is Assign || expr is Binary || expr is Bitwise,
    ensures
        text@ == render_expr(expr.view()),
    decreases expr, 0nat,
{
    match expr {
        Expr::Assign { lvalue: left, operator, value: right }
        | Expr::Binary { left, operator, right }
        | Expr::Bitwise { left, operator, right } => {
            let head = token_string(&operator.token);
            list_text(head.as_str(), &two(expr_text(left), expr_text(right)))
        },
        _ => String::new(),
    }
}

/// The text of a call.
fn call_text(expr: &Expr) -> (text: String)
    requires
        expr is Call,
    ensures
        text@ == render_expr(expr.view()),
    decreases expr, 0nat,
{
    match expr {
        Expr::Call { callee, arguments } => {
            let parts = operand_texts(arguments, expr_text(callee));
            assert(expr.view()->Call_arguments =~= expr_views(arguments@));
            list_text("call", &parts)
        },
        _ => String::new(),
    }
}

/// The text of a node with one operand: a grouping, a prefix or a postfix
/// operator.
fn unary_text(expr: &Expr) -> (text: String)
    requires
        expr is Grouping || expr is Unary || expr is Postfix,
    ensures
        text@ == render_expr(expr.view()),
    decreases expr, 0nat,
{
    match expr {
        Expr::Grouping { expression } => list_text("group", &one(expr_text(expression))),
        Expr::Unary { operator, right } => {
            let head = token_string(&operator.token);
            list_text(head.as_str(), &one(expr_text(right)))
        },
        Expr::Postfix { left, operator } => {
            let mut head = token_string(&operator.token);
            head.append(" post");
            list_text(head.as_str(), &one(expr_text(left)))
        },
        _ => String::new(),
    }
}

/// The text of an indexing or of a conditional.
fn compound_text(expr: &Expr) -> (text: String)
    requires
        expr is Get || expr is Ternary,
    ensures
        text@ == render_expr(expr.view()),
    decreases expr, 0nat,
{
    match expr {
        Expr::Get { target, index } => list_text(
            "get",
            &two(expr_text(target), expr_text(index)),
        ),
        Expr::Ternary { condition, then_branch, else_branch } => list_text(
            "?:",
            &three(expr_text(condition), expr_text(then_branch), expr_text(else_branch)),
        ),
        _ => String::new(),
    }
}

/// The text of an expression.
fn expr_text(expr: &Expr) -> (text: String)
    ensures
        text@ == render_expr(expr.view()),
    decreases expr, 2nat,
{
    match expr {
        Expr::Assign { .. } | Expr::Binary { .. } | Expr::Bitwise { .. } => infix_text(expr),
        Expr::Call { .. } => call_text(expr),
        Expr::Grouping { .. } | Expr::Unary { .. } | Expr::Postfix { .. } => unary_text(expr),
        Expr::Get { .. } | Expr::Ternary { .. } => compound_text(expr),
        Expr::Literal { value } => token_string(&value.token),
        Expr::Variable { name } => token_string(&name.token),
    }
}

/// An indentation that is one level deeper.
fn deepen(indent: &str) -> (deeper: String)
    ensures
        deeper@ == indent@ + indent_unit(),
{
    let mut deeper = String::from_str(indent);
    deeper.push(' ');
    deeper.push(' ');
    assert(deeper@ =~= indent@ + indent_unit());
    deeper
}

/// The texts of statements at an indentation.
fn stmt_texts(stmts: &Vec<Stmt>, indent: &str) -> (parts: Vec<String>)
    ensures
        string_views(parts@) == render_stmts(stmt_views(stmts@), indent@),
    decreases stmts, 1nat,
{
    let mut parts: Vec<String> = Vec::new();
    let mut i: usize = 0;
    while i < stmts.len()
        invariant
            i <= stmts@.len(),
            parts@.len() == i,
            forall|j: int|
                0 <= j < i ==> (#[trigger] parts@[j])@ == render_stmt(stmts@[j].view(), indent@),
        decreases stmts@.len() - i,
    {
        parts.push(stmt_text(&stmts[i], indent));
        i += 1;
    }
    proof {
        lemma_render_stmts(stmt_views(stmts@), indent@);
    }
    assert(string_views(parts@) =~= render_stmts(stmt_views(stmts@), indent@));
    parts
}

/// The text of an `auto` statement.
fn auto_string(declarations: &Vec<AutoDecl>, indent: &str) -> (text: String)
    ensures
        text@ == inline(indent@, "auto "@ + joined(auto_texts(declarations@))),
{
    let mut parts: Vec<String> = Vec::new();
    let mut i: usize = 0;
    while i < declarations.len()
        invariant
            i <= declarations@.len(),
            parts@.len() == i,
            forall|j: int|
                0 <= j < i ==> (#[trigger] parts@[j])@ == sized_text(
                    declarations@[j].name,
                    declarations@[j].size,
                ),
        decreases declarations@.len() - i,
    {
        parts.push(sized_string(&declarations[i].name, &declarations[i].size));
        i += 1;
    }
    assert(string_views(parts@) =~= auto_texts(declarations@));
    let mut body = String::from_str("auto ");
    push_joined(&mut body, &parts);
    inline_text(indent, body.as_str())
}

/// The text of a statement that holds a list of statements: a block or a
/// `switch`.
fn listed_text(stmt: &Stmt, indent: &str) -> (text: String)
    requires
        stmt is Block || stmt is Switch,
    ensures
        text@ == render_stmt(stmt.view(), indent@),
    decreases stmt, 0nat,
{
    let deeper = deepen(indent);
    match stmt {
        Stmt::Block { statements } => {
            let parts = stmt_texts(statements, deeper.as_str());
            assert(stmt.view()->Block_statements =~= stmt_views(statements@));
            nested_text(indent, "block", &parts)
        },
        Stmt::Switch { condition, cases } => {
            let head = glued("switch ", expr_text(condition).as_str());
            let parts = stmt_texts(cases, deeper.as_str());
            assert(stmt.view()->Switch_cases =~= stmt_views(cases@));
            nested_text(indent, head.as_str(), &parts)
        },
        _ => String::new(),
    }
}

/// The text of a statement that holds one statement: a `while`, a `case`, a
/// `default` or a label.
fn holder_text(stmt: &Stmt, indent: &str) -> (text: String)
    requires
        stmt is While || stmt is Case || stmt is Default || stmt is Label,
    ensures
        text@ == render_stmt(stmt.view(), indent@),
    decreases stmt, 0nat,
{
    let deeper = deepen(indent);
    match stmt {
        Stmt::While { condition, body } => {
            let head = glued("while ", expr_text(condition).as_str());
            nested_text(indent, head.as_str(), &one(stmt_text(body, deeper.as_str())))
        },
        Stmt::Case { value, body } => {
            let head = glued("case ", token_string(&value.token).as_str());
            nested_text(indent, head.as_str(), &one(stmt_text(body, deeper.as_str())))
        },
        Stmt::Default { body } => nested_text(
            indent,
            "default",
            &one(stmt_text(body, deeper.as_str())),
        ),
        Stmt::Label { name, body } => {
            let head = glued("label ", token_string(&name.token).as_str());
            nested_text(indent, head.as_str(), &one(stmt_text(body, deeper.as_str())))
        },
        _ => String::new(),
    }
}

/// The text of an `if` statement.
fn if_text(stmt: &Stmt, indent: &str) -> (text: String)
    requires
        stmt is If,
    ensures
        text@ == render_stmt(stmt.view(), indent@),
    decreases stmt, 0nat,
{
    match stmt {
        Stmt::If { condition, then_branch, else_branch } => {
            let deeper = deepen(indent);
            let head = glued("if ", expr_text(condition).as_str());
            let then_text = stmt_text(then_branch, deeper.as_str());
            let parts = match else_branch {
                Some(else_stmt) => {
                    let deepest = deepen(deeper.as_str());
                    let else_text = stmt_text(else_stmt, deepest.as_str());
                    two(then_text, nested_text(deeper.as_str(), "else", &one(else_text)))
                },
                None => one(then_text),
            };
            nested_text(indent, head.as_str(), &parts)
        },
        _ => String::new(),
    }
}

/// The text of a statement that holds no statement.
fn plain_text(stmt: &Stmt, indent: &str) -> (text: String)
    requires
        stmt is Auto || stmt is Extrn || stmt is Expression || stmt is Goto || stmt is Return
            || stmt is Null,
    ensures
        text@ == render_stmt(stmt.view(), indent@),
{
    match stmt {
        Stmt::Auto { declarations } => auto_string(declarations, indent),
        Stmt::Extrn { names } => {
            let body = glued("extrn ", tokens_text(names).as_str());
            inline_text(indent, body.as_str())
        },
        Stmt::Expression { expression } => {
            let body = glued("expr ", expr_text(expression).as_str());
            inline_text(indent, body.as_str())
        },
        Stmt::Goto { expression } => {
            let body = glued("goto ", expr_text(expression).as_str());
            inline_text(indent, body.as_str())
        },
        Stmt::Return { value } => match value {
            Some(expr) => {
                let body = glued("return ", expr_text(expr).as_str());
                inline_text(indent, body.as_str())
            },
            None => inline_text(indent, "return"),
        },
        Stmt::Null => inline_text(indent, "null"),
        _ => String::new(),
    }
}

/// The text of a statement at an indentation.
fn stmt_text(stmt: &Stmt, indent: &str) -> (text: String)
    ensures
        text@ == render_stmt(stmt.view(), indent@),
    decreases stmt, 2nat,
{
    match stmt {
        Stmt::Block { .. } | Stmt::Switch { .. } => listed_text(stmt, indent),
        Stmt::While { .. } | Stmt::Case { .. } | Stmt::Default { .. } | Stmt::Label { .. } => {
            holder_text(stmt, indent)
        },
        Stmt::If { .. } => if_text(stmt, indent),
        Stmt::Auto { .. }
        | Stmt::Extrn { .. }
        | Stmt::Expression { .. }
        | Stmt::Goto { .. }
        | Stmt::Return { .. }
        | Stmt::Null => plain_text(stmt, indent),
    }
}

/// The text of the global declarations of one statement.
fn globals_text(decls: &Vec<GlobalDecl>) -> (text: String)
    ensures
        text@ == inline(Seq::empty(), "global "@ + joined(global_texts(global_views(decls@)))),
{
    let mut parts: Vec<String> = Vec::new();
    let mut i: usize = 0;
    while i < decls.len()
        invariant
            i <= decls@.len(),
            parts@.len() == i,
            forall|j: int|
                0 <= j < i ==> (#[trigger] parts@[j])@ == global_text(decls@[j].view()),
        decreases decls@.len() - i,
    {
        let mut part = sized_string(&decls[i].name, &decls[i].size);
        match &decls[i].initializer {
            Some(list) => {
                part.push(' ');
                part.append(tokens_text(list).as_str());
            },
            None => {},
        }
        parts.push(part);
        i += 1;
    }
    assert(string_views(parts@) =~= global_texts(global_views(decls@)));
    let mut body = String::from_str("global ");
    push_joined(&mut body, &parts);
    let text = inline_text("", body.as_str());
    proof {
        reveal_strlit("");
        assert(""@ =~= Seq::<char>::empty());
    }
    text
}

/// The text of a function at an indentation.
fn function_text(name: &SpannedToken, params: &Vec<SpannedToken>, body: &Stmt, indent: &str) -> (text:
    String)
    ensures
        text@ == nested(
            Seq::empty(),
            "fn "@ + token_text(name.token@) + " ("@ + joined(token_texts(params@)) + ")"@,
            seq![render_stmt(body.view(), indent@ + indent_unit())],
        ),
{
    let deeper = deepen(indent);
    let mut head = String::from_str("fn ");
    push_token(&mut head, &name.token);
    head.append(" (");
    head.append(tokens_text(params).as_str());
    head.append(")");
    let text = nested_text("", head.as_str(), &one(stmt_text(body, deeper.as_str())));
    proof {
        reveal_strlit("");
        assert(""@ =~= Seq::<char>::empty());
    }
    text
}

/// The text of an item at an indentation.
fn item_text(item: &TopLevel, indent: &str) -> (text: String)
    ensures
        text@ == render_item(item.view(), indent@),
{
    match item {
        TopLevel::Function(function) => function_text(
            &function.name,
            &function.params,
            &function.body,
            indent,
        ),
        TopLevel::Global(decls) => globals_text(decls),
    }
}

/// A printer of trees. It holds the level of indentation that it prints
/// statements at.
pub struct AstPrinter {
    indent: usize,
}

impl AstPrinter {
    /// The level of indentation that the printer prints statements at.
    pub closed spec fn level(&self) -> nat {
        self.indent as nat
    }

    /// A printer at the level zero.
    pub fn new() -> (printer: Self)
        ensures
            printer.level() == 0,
    {
        Self { indent: 0 }
    }

    /// The text of an expression.
    pub fn print_expr(&mut self, expr: &Expr) -> (text: String)
        ensures
            text@ == render_expr(expr.view()),
            *final(self) == *old(self),
    {
        walk_expr(self, expr)
    }

    /// The text of a statement, indented by the printer's level.
    pub fn print_stmt(&mut self, stmt: &Stmt) -> (text: String)
        ensures
            text@ == render_stmt(stmt.view(), indent_text(old(self).level())),
            *final(self) == *old(self),
    {
        walk_stmt(self, stmt)
    }

    /// The text of an item; the body of a function is indented by one level
    /// more than the printer's.
    pub fn print_item(&mut self, item: &TopLevel) -> (text: String)
        ensures
            text@ == render_item(item.view(), indent_text(old(self).level())),
            *final(self) == *old(self),
    {
        walk_item(self, item)
    }

    /// The text of a program: its items with an empty line between one and
    /// the next.
    pub fn print_program(&mut self, program: &Program) -> (text: String)
        ensures
            text@ == render_items(program.view().top_level, indent_text(old(self).level())),
            *final(self) == *old(self),
    {
        let indent = self.indent_str();
        let ghost items = top_level_views(program.top_level@);
        let mut result = String::new();
        let mut i: usize = 0;
        assert(items.take(0) =~= Seq::empty());
        while i < program.top_level.len()
            invariant
                i <= program.top_level@.len(),
                items == top_level_views(program.top_level@),
                indent@ == indent_text(self.level()),
                result@ == render_items(items.take(i as int), indent@),
            decreases program.top_level@.len() - i,
        {
            let ghost before = items.take(i as int);
            let ghost now = items.take(i + 1);
            assert(now.drop_last() =~= before);
            assert(now.last() == program.top_level@[i as int].view());
            if i > 0 {
                result.append("\n\n");
            }
            result.append(item_text(&program.top_level[i], indent.as_str()).as_str());
            assert(result@ =~= render_items(now, indent@));
            i += 1;
        }
        assert(items.take(program.top_level@.len() as int) =~= items);
        result
    }

    /// The indentation of the printer's level.
    fn indent_str(&self) -> (indent: String)
        ensures
            indent@ == indent_text(self.level()),
    {
        let mut indent = String::new();
        let mut i: usize = 0;
        while i < self.indent
            invariant
                i <= self.indent,
                indent@ == indent_text(i as nat),
            decreases self.indent - i,
        {
            indent.push(' ');
            indent.push(' ');
            i += 1;
            assert(indent@ =~= indent_text(i as nat));
        }
        indent
    }

    /// The text of a list on one line: in parentheses the operator or kind
    /// `op`, and after it each expression preceded by a space.
    pub fn parenthesize(&mut self, op: &str, exprs: &[&Expr]) -> (text: String)
        ensures
            text@ == listed(op@, render_exprs(views_of(exprs@))),
            *final(self) == *old(self),
    {
        let mut parts: Vec<String> = Vec::new();
        let mut i: usize = 0;
        while i < exprs.len()
            invariant
                i <= exprs@.len(),
                parts@.len() == i,
                forall|j: int|
                    0 <= j < i ==> (#[trigger] parts@[j])@ == render_expr(exprs@[j].view()),
            decreases exprs@.len() - i,
        {
            parts.push(expr_text(exprs[i]));
            i += 1;
        }
        proof {
            lemma_render_exprs(views_of(exprs@));
        }
        assert(string_views(parts@) =~= render_exprs(views_of(exprs@)));
        list_text(op, &parts)
    }
}

impl ExprVisitor<String> for AstPrinter {
    /// A visit leaves the printer as it was and gives the text of the
    /// expression.
    open spec fn visits_expr(&self, expr: Expr, after: Self, out: String) -> bool {
        after == *self && out@ == render_expr(expr.view())
    }

    fn visit_assign(&mut self, lvalue: &Expr, operator: &SpannedToken, value: &Expr) -> (out: String) {
        let head = token_string(&operator.token);
        list_text(head.as_str(), &two(expr_text(lvalue), expr_text(value)))
    }

    fn visit_binary(&mut self, left: &Expr, operator: &SpannedToken, right: &Expr) -> (out: String) {
        let head = token_string(&operator.token);
        list_text(head.as_str(), &two(expr_text(left), expr_text(right)))
    }

    fn visit_call(&mut self, callee: &Expr, arguments: &Vec<Box<Expr>>) -> (out: String) {
        let parts = operand_texts(arguments, expr_text(callee));
        let ghost call = Expr::Call { callee: Box::new(*callee), arguments: *arguments };
        assert(call.view()->Call_arguments =~= expr_views(arguments@));
        list_text("call", &parts)
    }

    fn visit_grouping(&mut self, expression: &Expr) -> (out: String) {
        list_text("group", &one(expr_text(expression)))
    }

    fn visit_literal(&mut self, value: &SpannedToken) -> (out: String) {
        token_string(&value.token)
    }

    fn visit_unary(&mut self, operator: &SpannedToken, right: &Expr) -> (out: String) {
        let head = token_string(&operator.token);
        list_text(head.as_str(), &one(expr_text(right)))
    }

    fn visit_logical(&mut self, left: &Expr, operator: &SpannedToken, right: &Expr) -> (out: String) {
        let head = token_string(&operator.token);
        list_text(head.as_str(), &two(expr_text(left), expr_text(right)))
    }

    fn visit_variable(&mut self, name: &SpannedToken) -> (out: String) {
        token_string(&name.token)
    }

    fn visit_get(&mut self, target: &Expr, index: &Expr) -> (out: String) {
        list_text("get", &two(expr_text(target), expr_text(index)))
    }

    fn visit_ternary(&mut self, condition: &Expr, then_branch: &Expr, else_branch: &Expr) -> (out:
        String) {
        list_text(
            "?:",
            &three(expr_text(condition), expr_text(then_branch), expr_text(else_branch)),
        )
    }

    fn visit_postfix(&mut self, left: &Expr, operator: &SpannedToken) -> (out: String) {
        let mut head = token_string(&operator.token);
        head.append(" post");
        list_text(head.as_str(), &one(expr_text(left)))
    }
}

impl StmtVisitor<String> for AstPrinter {
    /// A visit leaves the printer as it was and gives the text of the
    /// statement, indented by the printer's level.
    open spec fn visits_stmt(&self, stmt: Stmt, after: Self, out: String) -> bool {
        after == *self && out@ == render_stmt(stmt.view(), indent_text(self.level()))
    }

    fn visit_block(&mut self, statements: &Vec<Stmt>) -> (out: String) {
        let indent = self.indent_str();
        let deeper = deepen(indent.as_str());
        let parts = stmt_texts(statements, deeper.as_str());
        let ghost block = Stmt::Block { statements: *statements };
        assert(block.view()->Block_statements =~= stmt_views(statements@));
        nested_text(indent.as_str(), "block", &parts)
    }

    fn visit_auto(&mut self, declarations: &Vec<AutoDecl>) -> (out: String) {
        let indent = self.indent_str();
        auto_string(declarations, indent.as_str())
    }

    fn visit_extrn(&mut self, names: &Vec<SpannedToken>) -> (out: String) {
        let indent = self.indent_str();
        let body = glued("extrn ", tokens_text(names).as_str());
        inline_text(indent.as_str(), body.as_str())
    }

    fn visit_expression(&mut self, expression: &Expr) -> (out: String) {
        let indent = self.indent_str();
        let body = glued("expr ", expr_text(expression).as_str());
        inline_text(indent.as_str(), body.as_str())
    }

    fn visit_if(&mut self, condition: &Expr, then_branch: &Stmt, else_branch: Option<&Stmt>) -> (out:
        String) {
        let indent = self.indent_str();
        let deeper = deepen(indent.as_str());
        let head = glued("if ", expr_text(condition).as_str());
        let then_text = stmt_text(then_branch, deeper.as_str());
        let parts = match else_branch {
            Some(else_stmt) => {
                let deepest = deepen(deeper.as_str());
                let else_text = stmt_text(else_stmt, deepest.as_str());
                two(then_text, nested_text(deeper.as_str(), "else", &one(else_text)))
            },
            None => one(then_text),
        };
        nested_text(indent.as_str(), head.as_str(), &parts)
    }

    fn visit_while(&mut self, condition: &Expr, body: &Stmt) -> (out: String) {
        let indent = self.indent_str();
        let deeper = deepen(indent.as_str());
        let head = glued("while ", expr_text(condition).as_str());
        nested_text(indent.as_str(), head.as_str(), &one(stmt_text(body, deeper.as_str())))
    }

    fn visit_switch(&mut self, condition: &Expr, cases: &Vec<Stmt>) -> (out: String) {
        let indent = self.indent_str();
        let deeper = deepen(indent.as_str());
        let head = glued("switch ", expr_text(condition).as_str());
        let parts = stmt_texts(cases, deeper.as_str());
        let ghost switch = Stmt::Switch { condition: Box::new(*condition), cases: *cases };
        assert(switch.view()->Switch_cases =~= stmt_views(cases@));
        nested_text(indent.as_str(), head.as_str(), &parts)
    }

    fn visit_case(&mut self, value: &SpannedToken, body: &Stmt) -> (out: String) {
        let indent = self.indent_str();
        let deeper = deepen(indent.as_str());
        let head = glued("case ", token_string(&value.token).as_str());
        nested_text(indent.as_str(), head.as_str(), &one(stmt_text(body, deeper.as_str())))
    }

    fn visit_default(&mut self, body: &Stmt) -> (out: String) {
        let indent = self.indent_str();
        let deeper = deepen(indent.as_str());
        nested_text(indent.as_str(), "default", &one(stmt_text(body, deeper.as_str())))
    }

    fn visit_label(&mut self, name: &SpannedToken, body: &Stmt) -> (out: String) {
        let indent = self.indent_str();
        let deeper = deepen(indent.as_str());
        let head = glued("label ", token_string(&name.token).as_str());
        nested_text(indent.as_str(), head.as_str(), &one(stmt_text(body, deeper.as_str())))
    }

    fn visit_goto(&mut self, expression: &Expr) -> (out: String) {
        let indent = self.indent_str();
        let body = glued("goto ", expr_text(expression).as_str());
        inline_text(indent.as_str(), body.as_str())
    }

    fn visit_return(&mut self, value: Option<&Expr>) -> (out: String) {
        let indent = self.indent_str();
        match value {
            Some(expr) => {
                let body = glued("return ", expr_text(expr).as_str());
                inline_text(indent.as_str(), body.as_str())
            },
            None => inline_text(indent.as_str(), "return"),
        }
    }

    fn visit_null(&mut self) -> (out: String) {
        let indent = self.indent_str();
        inline_text(indent.as_str(), "null")
    }
}

impl ItemVisitor<String> for AstPrinter {
    /// A visit leaves the printer as it was and gives the text of the item;
    /// the body of a function is indented by one level more than the
    /// printer's.
    open spec fn visits_item(&self, item: TopLevel, after: Self, out: String) -> bool {
        after == *self && out@ == render_item(item.view(), indent_text(self.level()))
    }

    fn visit_function(&mut self, name: &SpannedToken, params: &Vec<SpannedToken>, body: &Stmt) -> (out:
        String) {
        let indent = self.indent_str();
        function_text(name, params, body, indent.as_str())
    }

    fn visit_global(&mut self, decls: &Vec<GlobalDecl>) -> (out: String) {
        globals_text(decls)
    }
}

} // verus!
