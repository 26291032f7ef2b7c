//! Reading the text of a statement back: what the reader reads from it is
//! the statement's form, whatever the indentation.

use vstd::prelude::*;
use crate::ast::pretty_printer::{
    auto_texts, indent_unit, integer_text, joined, lemma_render_stmts, lines, listed,
    nested, render_expr, render_stmt, render_stmts, sized_text, spaced, token_text, token_texts,
};
use crate::ast::reading::{
    expr_item, is_blank_run, is_delimiter, is_plain, is_word, laid, lemma_atom_reads,
    lemma_expr_reads, lemma_form_reads, lemma_integer_text, lemma_integer_text_one,
    lemma_listed_reads, lemma_one_item_one_shape, lemma_token_item_one, lemma_token_reads,
    reads_as, same_token, token_item, Sexp,
};
use crate::ast::{AutoDecl, StmtView};
use crate::lexer::token::{SpannedToken, TokenView};

verus! {

/// The words that head the lists of statements and items, one character by
/// one, and each of those that a space follows as the word and the space.
pub proof fn lemma_statement_words()
    ensures
        "block"@ == seq!['b', 'l', 'o', 'c', 'k'],
        "auto"@ == seq!['a', 'u', 't', 'o'],
        "extrn"@ == seq!['e', 'x', 't', 'r', 'n'],
        "expr"@ == seq!['e', 'x', 'p', 'r'],
        "if"@ == seq!['i', 'f'],
        "else"@ == seq!['e', 'l', 's', 'e'],
        "while"@ == seq!['w', 'h', 'i', 'l', 'e'],
        "switch"@ == seq!['s', 'w', 'i', 't', 'c', 'h'],
        "case"@ == seq!['c', 'a', 's', 'e'],
        "default"@ == seq!['d', 'e', 'f', 'a', 'u', 'l', 't'],
        "label"@ == seq!['l', 'a', 'b', 'e', 'l'],
        "goto"@ == seq!['g', 'o', 't', 'o'],
        "return"@ == seq!['r', 'e', 't', 'u', 'r', 'n'],
        "null"@ == seq!['n', 'u', 'l', 'l'],
        "fn"@ == seq!['f', 'n'],
        "global"@ == seq!['g', 'l', 'o', 'b', 'a', 'l'],
        "auto "@ == "auto"@ + seq![' '],
        "extrn "@ == "extrn"@ + seq![' '],
        "expr "@ == "expr"@ + seq![' '],
        "if "@ == "if"@ + seq![' '],
        "while "@ == "while"@ + seq![' '],
        "switch "@ == "switch"@ + seq![' '],
        "case "@ == "case"@ + seq![' '],
        "label "@ == "label"@ + seq![' '],
        "goto "@ == "goto"@ + seq![' '],
        "return "@ == "return"@ + seq![' '],
        "fn "@ == "fn"@ + seq![' '],
        "global "@ == "global"@ + seq![' '],
{
    reveal_strlit("block");
    assert("block"@ =~= seq!['b', 'l', 'o', 'c', 'k']);
    reveal_strlit("auto");
    assert("auto"@ =~= seq!['a', 'u', 't', 'o']);
    reveal_strlit("extrn");
    assert("extrn"@ =~= seq!['e', 'x', 't', 'r', 'n']);
    reveal_strlit("expr");
    assert("expr"@ =~= seq!['e', 'x', 'p', 'r']);
    reveal_strlit("if");
    assert("if"@ =~= seq!['i', 'f']);
    reveal_strlit("else");
    assert("else"@ =~= seq!['e', 'l', 's', 'e']);
    reveal_strlit("while");
    assert("while"@ =~= seq!['w', 'h', 'i', 'l', 'e']);
    reveal_strlit("switch");
    assert("switch"@ =~= seq!['s', 'w', 'i', 't', 'c', 'h']);
    reveal_strlit("case");
    assert("case"@ =~= seq!['c', 'a', 's', 'e']);
    reveal_strlit("default");
    assert("default"@ =~= seq!['d', 'e', 'f', 'a', 'u', 'l', 't']);
    reveal_strlit("label");
    assert("label"@ =~= seq!['l', 'a', 'b', 'e', 'l']);
    reveal_strlit("goto");
    assert("goto"@ =~= seq!['g', 'o', 't', 'o']);
    reveal_strlit("return");
    assert("return"@ =~= seq!['r', 'e', 't', 'u', 'r', 'n']);
    reveal_strlit("null");
    assert("null"@ =~= seq!['n', 'u', 'l', 'l']);
    reveal_strlit("fn");
    assert("fn"@ =~= seq!['f', 'n']);
    reveal_strlit("global");
    assert("global"@ =~= seq!['g', 'l', 'o', 'b', 'a', 'l']);
    reveal_strlit("auto ");
    assert("auto "@ =~= "auto"@ + seq![' ']);
    reveal_strlit("extrn ");
    assert("extrn "@ =~= "extrn"@ + seq![' ']);
    reveal_strlit("expr ");
    assert("expr "@ =~= "expr"@ + seq![' ']);
    reveal_strlit("if ");
    assert("if "@ =~= "if"@ + seq![' ']);
    reveal_strlit("while ");
    assert("while "@ =~= "while"@ + seq![' ']);
    reveal_strlit("switch ");
    assert("switch "@ =~= "switch"@ + seq![' ']);
    reveal_strlit("case ");
    assert("case "@ =~= "case"@ + seq![' ']);
    reveal_strlit("label ");
    assert("label "@ =~= "label"@ + seq![' ']);
    reveal_strlit("goto ");
    assert("goto "@ =~= "goto"@ + seq![' ']);
    reveal_strlit("return ");
    assert("return "@ =~= "return"@ + seq![' ']);
    reveal_strlit("fn ");
    assert("fn "@ =~= "fn"@ + seq![' ']);
    reveal_strlit("global ");
    assert("global "@ =~= "global"@ + seq![' ']);
}

/// Whether a text is an indentation: spaces only.
pub open spec fn is_indent(indent: Seq<char>) -> bool {
    forall|i: int| 0 <= i < indent.len() ==> #[trigger] indent[i] == ' '
}

/// What the texts of a sequence of tokens are read as.
pub open spec fn token_items(tokens: Seq<SpannedToken>) -> Seq<Sexp> {
    Seq::new(tokens.len(), |i: int| token_item(tokens[i].token@))
}

/// What the declarations of an `auto` statement are read as: each a word of
/// its name and, in brackets, its size.
pub open spec fn auto_items(decls: Seq<AutoDecl>) -> Seq<Sexp> {
    Seq::new(decls.len(), |i: int| Sexp::Atom(sized_text(decls[i].name, decls[i].size)))
}

/// What the text of a statement is read as: the list of the word of its kind
/// and what it holds.
pub open spec fn stmt_item(stmt: StmtView) -> Sexp
    decreases stmt,
{
    match stmt {
        StmtView::Block { statements } => Sexp::List("block"@, stmt_items(statements)),
        StmtView::Auto { declarations } => Sexp::List("auto"@, auto_items(declarations)),
        StmtView::Extrn { names } => Sexp::List("extrn"@, token_items(names)),
        StmtView::Expression { expression } => Sexp::List("expr"@, seq![expr_item(expression)]),
        StmtView::If { condition, then_branch, else_branch } => match else_branch {
            Some(stmt) => Sexp::List(
                "if"@,
                seq![
                    expr_item(condition),
                    stmt_item(*then_branch),
                    Sexp::List("else"@, seq![stmt_item(*stmt)]),
                ],
            ),
            None => Sexp::List("if"@, seq![expr_item(condition), stmt_item(*then_branch)]),
        },
        StmtView::While { condition, body } => Sexp::List(
            "while"@,
            seq![expr_item(condition), stmt_item(*body)],
        ),
        StmtView::Switch { condition, cases } => Sexp::List(
            "switch"@,
            seq![expr_item(condition)] + stmt_items(cases),
        ),
        StmtView::Case { value, body } => Sexp::List(
            "case"@,
            seq![token_item(value.token@), stmt_item(*body)],
        ),
        StmtView::Default { body } => Sexp::List("default"@, seq![stmt_item(*body)]),
        StmtView::Label { name, body } => Sexp::List(
            "label"@,
            seq![token_item(name.token@), stmt_item(*body)],
        ),
        StmtView::Goto { expression } => Sexp::List("goto"@, seq![expr_item(expression)]),
        StmtView::Return { value } => match value {
            Some(expr) => Sexp::List("return"@, seq![expr_item(expr)]),
            None => Sexp::List("return"@, Seq::empty()),
        },
        StmtView::Null => Sexp::List("null"@, Seq::empty()),
    }
}

/// What the texts of a sequence of statements are read as.
pub open spec fn stmt_items(stmts: Seq<StmtView>) -> Seq<Sexp>
    decreases stmts,
{
    if stmts.len() == 0 {
        Seq::empty()
    } else {
        stmt_items(stmts.drop_last()).push(stmt_item(stmts.last()))
    }
}

/// What a sequence of statements is read as has one item for each
/// statement, in its place.
pub proof fn lemma_stmt_items(stmts: Seq<StmtView>)
    ensures
        stmt_items(stmts).len() == stmts.len(),
        forall|i: int| 0 <= i < stmts.len() ==> #[trigger] stmt_items(stmts)[i] == stmt_item(
            stmts[i],
        ),
    decreases stmts.len(),
{
    if stmts.len() > 0 {
        lemma_stmt_items(stmts.drop_last());
    }
}

impl StmtView {
    /// Whether every name in the statement is a word of the language.
    pub open spec fn has_plain_names(self) -> bool
        decreases self,
    {
        match self {
            StmtView::Block { statements } => forall|i: int|
                0 <= i < statements.len() ==> (#[trigger] statements[i]).has_plain_names(),
            StmtView::Auto { declarations } => forall|i: int|
                0 <= i < declarations.len() ==> is_plain((#[trigger] declarations[i]).name.token@),
            StmtView::Extrn { names } => forall|i: int|
                0 <= i < names.len() ==> is_plain((#[trigger] names[i]).token@),
            StmtView::Expression { expression } => expression.has_plain_names(),
            StmtView::If { condition, then_branch, else_branch } => condition.has_plain_names()
                && then_branch.has_plain_names() && match else_branch {
                Some(stmt) => stmt.has_plain_names(),
                None => true,
            },
            StmtView::While { condition, body } => condition.has_plain_names()
                && body.has_plain_names(),
            StmtView::Switch { condition, cases } => condition.has_plain_names() && forall|i: int|
                0 <= i < cases.len() ==> (#[trigger] cases[i]).has_plain_names(),
            StmtView::Case { body, .. } => body.has_plain_names(),
            StmtView::Default { body } => body.has_plain_names(),
            StmtView::Label { name, body } => is_plain(name.token@) && body.has_plain_names(),
            StmtView::Goto { expression } => expression.has_plain_names(),
            StmtView::Return { value } => match value {
                Some(expr) => expr.has_plain_names(),
                None => true,
            },
            StmtView::Null => true,
        }
    }

    /// Whether the statement is one that the parser builds of what the
    /// scanner yields: it is well formed and its names are words.
    pub open spec fn is_readable(self) -> bool {
        self.well_formed() && self.has_plain_names()
    }
}

/// The text of a statement without its indentation.
pub open spec fn stmt_core(stmt: StmtView, indent: Seq<char>) -> Seq<char> {
    render_stmt(stmt, indent).skip(indent.len() as int)
}

/// The texts of a sequence of statements without their indentation.
pub open spec fn stmt_cores(stmts: Seq<StmtView>, indent: Seq<char>) -> Seq<Seq<char>> {
    Seq::new(stmts.len(), |i: int| stmt_core(stmts[i], indent))
}

/// A line feed and an indentation, as often as asked.
pub open spec fn breaks(count: nat, indent: Seq<char>) -> Seq<Seq<char>> {
    Seq::new(count, |i: int| seq!['\n'] + indent)
}

/// Whether a statement at an indentation is its indentation and then a text
/// that is read as the statement's item.
pub open spec fn stmt_reads(stmt: StmtView, indent: Seq<char>) -> bool {
    &&& render_stmt(stmt, indent) == indent + stmt_core(stmt, indent)
    &&& reads_as(stmt_core(stmt, indent), stmt_item(stmt))
}

/// A text after an indentation is what is left when the indentation is
/// skipped.
pub proof fn lemma_core(indent: Seq<char>, core: Seq<char>)
    ensures
        (indent + core).skip(indent.len() as int) == core,
{
    assert((indent + core).skip(indent.len() as int) =~= core);
}

/// A line feed and an indentation are blanks, and so is the indentation one
/// level deeper.
pub proof fn lemma_break(indent: Seq<char>)
    requires
        is_indent(indent),
    ensures
        is_blank_run(seq!['\n'] + indent),
        (seq!['\n'] + indent).len() > 0,
        is_indent(indent + indent_unit()),
        is_blank_run(seq![' ']),
{
    let deeper = indent + indent_unit();
    assert forall|i: int| 0 <= i < deeper.len() implies #[trigger] deeper[i] == ' ' by {
        if i < indent.len() {
            assert(deeper[i] == indent[i]);
        }
    }
    let line = seq!['\n'] + indent;
    assert forall|i: int| 0 <= i < line.len() implies crate::lexer::scanner::is_blank(
        #[trigger] line[i],
    ) by {
        if i > 0 {
            assert(line[i] == indent[i - 1]);
        }
    }
}

/// The parts of a list with a space before the first too are the parts each
/// after a space.
pub proof fn lemma_joined_spaced(parts: Seq<Seq<char>>)
    requires
        parts.len() > 0,
    ensures
        seq![' '] + joined(parts) == spaced(parts),
    decreases parts.len(),
{
    if parts.len() == 1 {
        assert(parts.drop_last() =~= Seq::<Seq<char>>::empty());
        reveal_with_fuel(spaced, 2);
        assert(seq![' '] + joined(parts) =~= spaced(parts));
    } else {
        lemma_joined_spaced(parts.drop_last());
        assert(seq![' '] + joined(parts) =~= spaced(parts));
    }
}

/// A word, a space and the parts of a list in parentheses are the list of
/// the word and the parts.
proof fn lemma_inline_listed(word: Seq<char>, parts: Seq<Seq<char>>)
    requires
        parts.len() > 0,
    ensures
        seq!['('] + (word + seq![' '] + joined(parts)) + seq![')'] == listed(word, parts),
{
    lemma_joined_spaced(parts);
    assert(seq!['('] + (word + seq![' '] + joined(parts)) + seq![')'] =~= seq!['('] + word + (
    seq![' '] + joined(parts)) + seq![')']);
}

/// The text of a name with its size is read as a word.
pub proof fn lemma_sized_reads(name: SpannedToken, size: Option<SpannedToken>)
    requires
        name.token@ matches TokenView::Identifier(word) && is_word(word),
        size matches Some(token) ==> token.token@ is Integer,
    ensures
        reads_as(sized_text(name, size), Sexp::Atom(sized_text(name, size))),
{
    let text = sized_text(name, size);
    let word = name.token@->Identifier_0;
    match size {
        Some(token) => {
            let digits = integer_text(token.token@->Integer_0 as int);
            lemma_integer_text(token.token@->Integer_0 as int);
            assert forall|i: int| 0 <= i < text.len() implies !is_delimiter(#[trigger] text[i]) by {
                if i < word.len() {
                    assert(text[i] == word[i]);
                } else if word.len() < i < text.len() - 1 {
                    assert(text[i] == digits[i - word.len() - 1]);
                }
            }
            assert(text[0] == word[0]);
        },
        None => {},
    }
    lemma_atom_reads(text);
}

/// Items laid out after others are laid out after what the others are.
proof fn lemma_laid_append(
    first_blanks: Seq<Seq<char>>,
    first_parts: Seq<Seq<char>>,
    blanks: Seq<Seq<char>>,
    parts: Seq<Seq<char>>,
)
    requires
        first_blanks.len() == first_parts.len(),
        blanks.len() == parts.len(),
    ensures
        laid(first_blanks + blanks, first_parts + parts) == laid(first_blanks, first_parts) + laid(
            blanks,
            parts,
        ),
    decreases parts.len(),
{
    if parts.len() == 0 {
        assert(first_blanks + blanks =~= first_blanks);
        assert(first_parts + parts =~= first_parts);
        assert(laid(first_blanks, first_parts) + laid(blanks, parts) =~= laid(
            first_blanks,
            first_parts,
        ));
    } else {
        lemma_laid_append(first_blanks, first_parts, blanks.drop_last(), parts.drop_last());
        assert((first_blanks + blanks).drop_last() =~= first_blanks + blanks.drop_last());
        assert((first_parts + parts).drop_last() =~= first_parts + parts.drop_last());
        assert((first_blanks + blanks).last() == blanks.last());
        assert((first_parts + parts).last() == parts.last());
        assert(laid(first_blanks + blanks, first_parts + parts) =~= laid(
            first_blanks,
            first_parts,
        ) + laid(blanks, parts));
    }
}

/// Lines, each an indentation and a text, are the texts laid out each after
/// a line feed and the indentation, but for the line feed at the end.
proof fn lemma_lines_laid(parts: Seq<Seq<char>>, cores: Seq<Seq<char>>, indent: Seq<char>)
    requires
        parts.len() == cores.len(),
        forall|i: int| 0 <= i < parts.len() ==> #[trigger] parts[i] == indent + cores[i],
    ensures
        seq!['\n'] + lines(parts) == laid(breaks(parts.len(), indent), cores) + seq!['\n'],
    decreases parts.len(),
{
    if parts.len() == 0 {
        assert(seq!['\n'] + lines(parts) =~= laid(breaks(parts.len(), indent), cores) + seq![
            '\n',
        ]);
    } else {
        lemma_lines_laid(parts.drop_last(), cores.drop_last(), indent);
        assert(breaks(parts.len(), indent).drop_last() =~= breaks(
            parts.drop_last().len(),
            indent,
        ));
        assert(parts.last() == indent + cores.last());
        let before = laid(breaks(parts.drop_last().len(), indent), cores.drop_last());
        assert(breaks(parts.len(), indent).last() == seq!['\n'] + indent);
        assert(laid(breaks(parts.len(), indent), cores) == before + (seq!['\n'] + indent)
            + cores.last());
        assert(seq!['\n'] + lines(parts) =~= (seq!['\n'] + lines(parts.drop_last()))
            + parts.last() + seq!['\n']);
        assert(seq!['\n'] + lines(parts) =~= laid(breaks(parts.len(), indent), cores) + seq![
            '\n',
        ]);
    }
}

/// A list on one line at an indentation is the indentation and a text that
/// is read as the list: its word, and after a space its parts, if any.
proof fn lemma_inline_form(
    text: Seq<char>,
    indent: Seq<char>,
    word: Seq<char>,
    parts: Seq<Seq<char>>,
    items: Seq<Sexp>,
)
    requires
        forall|i: int| 0 <= i < word.len() ==> !is_delimiter(#[trigger] word[i]),
        parts.len() == items.len(),
        forall|i: int| 0 <= i < parts.len() ==> reads_as(#[trigger] parts[i], items[i]),
        text == indent + seq!['('] + (if parts.len() > 0 {
            word + seq![' '] + joined(parts)
        } else {
            word
        }) + seq![')'],
    ensures
        text == indent + text.skip(indent.len() as int),
        reads_as(text.skip(indent.len() as int), Sexp::List(word, items)),
{
    let form = listed(word, parts);
    if parts.len() > 0 {
        lemma_inline_listed(word, parts);
        assert(text =~= indent + form);
    } else {
        assert(text =~= indent + form);
    }
    lemma_core(indent, form);
    lemma_listed_reads(word, parts, items);
}

/// A list over several lines at an indentation is the indentation and a text
/// that is read as the list: its word, the items on its first line, and the
/// items on the lines after it.
pub proof fn lemma_nested_form(
    text: Seq<char>,
    indent: Seq<char>,
    deeper: Seq<char>,
    word: Seq<char>,
    head_blanks: Seq<Seq<char>>,
    head_parts: Seq<Seq<char>>,
    head_items: Seq<Sexp>,
    line_parts: Seq<Seq<char>>,
    cores: Seq<Seq<char>>,
    items: Seq<Sexp>,
)
    requires
        is_indent(indent),
        is_indent(deeper),
        forall|i: int| 0 <= i < word.len() ==> !is_delimiter(#[trigger] word[i]),
        head_blanks.len() == head_parts.len(),
        head_parts.len() == head_items.len(),
        forall|i: int|
            0 <= i < head_blanks.len() ==> (#[trigger] head_blanks[i]).len() > 0 && is_blank_run(
                head_blanks[i],
            ),
        forall|i: int|
            0 <= i < head_parts.len() ==> reads_as(#[trigger] head_parts[i], head_items[i]),
        line_parts.len() == cores.len(),
        cores.len() == items.len(),
        forall|i: int| 0 <= i < line_parts.len() ==> #[trigger] line_parts[i] == deeper + cores[i],
        forall|i: int| 0 <= i < cores.len() ==> reads_as(#[trigger] cores[i], items[i]),
        text == nested(indent, word + laid(head_blanks, head_parts), line_parts),
    ensures
        text == indent + text.skip(indent.len() as int),
        reads_as(text.skip(indent.len() as int), Sexp::List(word, head_items + items)),
{
    let line_blanks = breaks(line_parts.len(), deeper);
    let blanks = head_blanks + line_blanks;
    let parts = head_parts + cores;
    let closing = seq!['\n'] + indent;
    let form = seq!['('] + word + laid(blanks, parts) + closing + seq![')'];
    lemma_lines_laid(line_parts, cores, deeper);
    lemma_laid_append(head_blanks, head_parts, line_blanks, cores);
    let head_line = laid(head_blanks, head_parts);
    let below = laid(line_blanks, cores);
    assert(text =~= indent + (seq!['('] + word + head_line + (seq!['\n'] + lines(line_parts))
        + indent + seq![')']));
    assert(form =~= seq!['('] + word + head_line + (below + seq!['\n']) + indent + seq![')']);
    assert(text == indent + form);
    lemma_core(indent, form);
    lemma_break(indent);
    lemma_break(deeper);
    assert forall|i: int| 0 <= i < blanks.len() implies (#[trigger] blanks[i]).len() > 0
        && is_blank_run(blanks[i]) by {
        if i >= head_blanks.len() {
            assert(blanks[i] == line_blanks[i - head_blanks.len()]);
        } else {
            assert(blanks[i] == head_blanks[i]);
        }
    }
    assert forall|i: int| 0 <= i < parts.len() implies reads_as(
        #[trigger] parts[i],
        (head_items + items)[i],
    ) by {
        if i >= head_parts.len() {
            assert(parts[i] == cores[i - head_parts.len()]);
        } else {
            assert(parts[i] == head_parts[i]);
        }
    }
    lemma_form_reads(word, blanks, parts, head_items + items, closing);
}

/// A statement that holds no statement is read as its item.
proof fn lemma_plain_reads(stmt: StmtView, indent: Seq<char>)
    requires
        stmt.is_readable(),
        is_indent(indent),
        stmt is Auto || stmt is Extrn || stmt is Expression || stmt is Goto || stmt is Return
            || stmt is Null,
    ensures
        stmt_reads(stmt, indent),
{
    lemma_statement_words();
    let text = render_stmt(stmt, indent);
    match stmt {
        StmtView::Auto { declarations } => {
            let parts = auto_texts(declarations);
            let items = auto_items(declarations);
            assert forall|i: int| 0 <= i < parts.len() implies reads_as(
                #[trigger] parts[i],
                items[i],
            ) by {
                assert(crate::parser::stmt::is_sized_name(
                    declarations[i].name,
                    declarations[i].size,
                ));
                assert(is_plain(declarations[i].name.token@));
                lemma_sized_reads(declarations[i].name, declarations[i].size);
            }
            assert(text =~= indent + seq!['('] + ("auto"@ + seq![' '] + joined(parts)) + seq![')']);
            lemma_inline_form(text, indent, "auto"@, parts, items);
        },
        StmtView::Extrn { names } => {
            let parts = token_texts(names);
            let items = token_items(names);
            assert forall|i: int| 0 <= i < parts.len() implies reads_as(
                #[trigger] parts[i],
                items[i],
            ) by {
                assert(is_plain(names[i].token@));
                lemma_token_reads(names[i].token@);
            }
            assert(text =~= indent + seq!['('] + ("extrn"@ + seq![' '] + joined(parts)) + seq![
                ')',
            ]);
            lemma_inline_form(text, indent, "extrn"@, parts, items);
        },
        StmtView::Expression { expression } => {
            lemma_expr_reads(expression);
            let parts = seq![render_expr(expression)];
            assert(text =~= indent + seq!['('] + ("expr"@ + seq![' '] + joined(parts)) + seq![')']);
            lemma_inline_form(text, indent, "expr"@, parts, seq![expr_item(expression)]);
        },
        StmtView::Goto { expression } => {
            lemma_expr_reads(expression);
            let parts = seq![render_expr(expression)];
            assert(text =~= indent + seq!['('] + ("goto"@ + seq![' '] + joined(parts)) + seq![')']);
            lemma_inline_form(text, indent, "goto"@, parts, seq![expr_item(expression)]);
        },
        StmtView::Return { value } => match value {
            Some(expr) => {
                lemma_expr_reads(expr);
                let parts = seq![render_expr(expr)];
                assert(text =~= indent + seq!['('] + ("return"@ + seq![' '] + joined(parts))
                    + seq![')']);
                lemma_inline_form(text, indent, "return"@, parts, seq![expr_item(expr)]);
            },
            None => {
                lemma_inline_form(text, indent, "return"@, Seq::empty(), Seq::empty());
            },
        },
        StmtView::Null => {
            lemma_inline_form(text, indent, "null"@, Seq::empty(), Seq::empty());
        },
        _ => {},
    }
}

/// Each of a sequence of statements is read as its item.
proof fn lemma_stmts_read(stmts: Seq<StmtView>, indent: Seq<char>)
    requires
        forall|i: int| 0 <= i < stmts.len() ==> (#[trigger] stmts[i]).is_readable(),
        is_indent(indent),
    ensures
        render_stmts(stmts, indent).len() == stmts.len(),
        stmt_items(stmts).len() == stmts.len(),
        forall|i: int|
            0 <= i < stmts.len() ==> #[trigger] render_stmts(stmts, indent)[i] == indent
                + stmt_cores(stmts, indent)[i],
        forall|i: int|
            0 <= i < stmts.len() ==> reads_as(
                #[trigger] stmt_cores(stmts, indent)[i],
                stmt_items(stmts)[i],
            ),
    decreases stmts, 0nat,
{
    lemma_render_stmts(stmts, indent);
    lemma_stmt_items(stmts);
    assert forall|i: int| 0 <= i < stmts.len() implies #[trigger] render_stmts(stmts, indent)[i]
        == indent + stmt_cores(stmts, indent)[i] by {
        lemma_stmt_reads(stmts[i], indent);
    }
    assert forall|i: int| 0 <= i < stmts.len() implies reads_as(
        #[trigger] stmt_cores(stmts, indent)[i],
        stmt_items(stmts)[i],
    ) by {
        lemma_stmt_reads(stmts[i], indent);
    }
}

/// A list over several lines whose first line holds the word alone.
proof fn lemma_bare_form(
    text: Seq<char>,
    indent: Seq<char>,
    word: Seq<char>,
    line_parts: Seq<Seq<char>>,
    cores: Seq<Seq<char>>,
    items: Seq<Sexp>,
)
    requires
        is_indent(indent),
        forall|i: int| 0 <= i < word.len() ==> !is_delimiter(#[trigger] word[i]),
        line_parts.len() == cores.len(),
        cores.len() == items.len(),
        forall|i: int|
            0 <= i < line_parts.len() ==> #[trigger] line_parts[i] == indent + indent_unit()
                + cores[i],
        forall|i: int| 0 <= i < cores.len() ==> reads_as(#[trigger] cores[i], items[i]),
        text == nested(indent, word, line_parts),
    ensures
        text == indent + text.skip(indent.len() as int),
        reads_as(text.skip(indent.len() as int), Sexp::List(word, items)),
{
    lemma_break(indent);
    assert(word + laid(Seq::empty(), Seq::empty()) =~= word);
    lemma_nested_form(
        text,
        indent,
        indent + indent_unit(),
        word,
        Seq::empty(),
        Seq::empty(),
        Seq::empty(),
        line_parts,
        cores,
        items,
    );
    assert(Seq::<Sexp>::empty() + items =~= items);
}

/// A list over several lines whose first line holds the word and, after a
/// space, one item.
proof fn lemma_headed_form(
    text: Seq<char>,
    indent: Seq<char>,
    word: Seq<char>,
    head_part: Seq<char>,
    head_item: Sexp,
    line_parts: Seq<Seq<char>>,
    cores: Seq<Seq<char>>,
    items: Seq<Sexp>,
)
    requires
        is_indent(indent),
        forall|i: int| 0 <= i < word.len() ==> !is_delimiter(#[trigger] word[i]),
        reads_as(head_part, head_item),
        line_parts.len() == cores.len(),
        cores.len() == items.len(),
        forall|i: int|
            0 <= i < line_parts.len() ==> #[trigger] line_parts[i] == indent + indent_unit()
                + cores[i],
        forall|i: int| 0 <= i < cores.len() ==> reads_as(#[trigger] cores[i], items[i]),
        text == nested(indent, word + seq![' '] + head_part, line_parts),
    ensures
        text == indent + text.skip(indent.len() as int),
        reads_as(text.skip(indent.len() as int), Sexp::List(word, seq![head_item] + items)),
{
    lemma_break(indent);
    let head_blanks = seq![seq![' ']];
    let head_parts = seq![head_part];
    assert(head_blanks.drop_last() =~= Seq::<Seq<char>>::empty());
    assert(head_parts.drop_last() =~= Seq::<Seq<char>>::empty());
    reveal_with_fuel(laid, 2);
    assert(word + seq![' '] + head_part =~= word + laid(head_blanks, head_parts));
    lemma_nested_form(
        text,
        indent,
        indent + indent_unit(),
        word,
        head_blanks,
        head_parts,
        seq![head_item],
        line_parts,
        cores,
        items,
    );
}

/// A block is read as its item.
proof fn lemma_block_reads(stmt: StmtView, indent: Seq<char>)
    requires
        stmt.is_readable(),
        is_indent(indent),
        stmt is Block,
    ensures
        stmt_reads(stmt, indent),
    decreases stmt, 0nat,
{
    lemma_statement_words();
    lemma_break(indent);
    let deeper = indent + indent_unit();
    let statements = stmt->Block_statements;
    lemma_stmts_read(statements, deeper);
    lemma_bare_form(
        render_stmt(stmt, indent),
        indent,
        "block"@,
        render_stmts(statements, deeper),
        stmt_cores(statements, deeper),
        stmt_items(statements),
    );
}

/// A `switch` statement is read as its item.
proof fn lemma_switch_reads(stmt: StmtView, indent: Seq<char>)
    requires
        stmt.is_readable(),
        is_indent(indent),
        stmt is Switch,
    ensures
        stmt_reads(stmt, indent),
    decreases stmt, 0nat,
{
    lemma_statement_words();
    lemma_break(indent);
    let deeper = indent + indent_unit();
    let condition = stmt->Switch_condition;
    let cases = stmt->Switch_cases;
    lemma_stmts_read(cases, deeper);
    lemma_expr_reads(condition);
    assert("switch "@ + render_expr(condition) =~= "switch"@ + seq![' '] + render_expr(condition));
    lemma_headed_form(
        render_stmt(stmt, indent),
        indent,
        "switch"@,
        render_expr(condition),
        expr_item(condition),
        render_stmts(cases, deeper),
        stmt_cores(cases, deeper),
        stmt_items(cases),
    );
}

/// A `while` statement is read as its item.
proof fn lemma_while_reads(stmt: StmtView, indent: Seq<char>)
    requires
        stmt.is_readable(),
        is_indent(indent),
        stmt is While,
    ensures
        stmt_reads(stmt, indent),
    decreases stmt, 0nat,
{
    lemma_statement_words();
    lemma_break(indent);
    let deeper = indent + indent_unit();
    let condition = stmt->While_condition;
    let body = *stmt->While_body;
    lemma_stmt_reads(body, deeper);
    lemma_expr_reads(condition);
    assert("while "@ + render_expr(condition) =~= "while"@ + seq![' '] + render_expr(condition));
    lemma_headed_form(
        render_stmt(stmt, indent),
        indent,
        "while"@,
        render_expr(condition),
        expr_item(condition),
        seq![render_stmt(body, deeper)],
        seq![stmt_core(body, deeper)],
        seq![stmt_item(body)],
    );
    assert(seq![expr_item(condition)] + seq![stmt_item(body)] =~= seq![
        expr_item(condition),
        stmt_item(body),
    ]);
}

/// A `case` is read as its item.
proof fn lemma_case_reads(stmt: StmtView, indent: Seq<char>)
    requires
        stmt.is_readable(),
        is_indent(indent),
        stmt is Case,
    ensures
        stmt_reads(stmt, indent),
    decreases stmt, 0nat,
{
    lemma_statement_words();
    lemma_break(indent);
    let deeper = indent + indent_unit();
    let value = stmt->Case_value;
    let body = *stmt->Case_body;
    lemma_stmt_reads(body, deeper);
    lemma_token_reads(value.token@);
    assert("case "@ + token_text(value.token@) =~= "case"@ + seq![' '] + token_text(value.token@));
    lemma_headed_form(
        render_stmt(stmt, indent),
        indent,
        "case"@,
        token_text(value.token@),
        token_item(value.token@),
        seq![render_stmt(body, deeper)],
        seq![stmt_core(body, deeper)],
        seq![stmt_item(body)],
    );
    assert(seq![token_item(value.token@)] + seq![stmt_item(body)] =~= seq![
        token_item(value.token@),
        stmt_item(body),
    ]);
}

/// A `default` is read as its item.
proof fn lemma_default_reads(stmt: StmtView, indent: Seq<char>)
    requires
        stmt.is_readable(),
        is_indent(indent),
        stmt is Default,
    ensures
        stmt_reads(stmt, indent),
    decreases stmt, 0nat,
{
    lemma_statement_words();
    lemma_break(indent);
    let deeper = indent + indent_unit();
    let body = *stmt->Default_body;
    lemma_stmt_reads(body, deeper);
    lemma_bare_form(
        render_stmt(stmt, indent),
        indent,
        "default"@,
        seq![render_stmt(body, deeper)],
        seq![stmt_core(body, deeper)],
        seq![stmt_item(body)],
    );
}

/// A label with its statement is read as its item.
proof fn lemma_label_reads(stmt: StmtView, indent: Seq<char>)
    requires
        stmt.is_readable(),
        is_indent(indent),
        stmt is Label,
    ensures
        stmt_reads(stmt, indent),
    decreases stmt, 0nat,
{
    lemma_statement_words();
    lemma_break(indent);
    let deeper = indent + indent_unit();
    let name = stmt->Label_name;
    let body = *stmt->Label_body;
    lemma_stmt_reads(body, deeper);
    assert(is_plain(name.token@));
    lemma_token_reads(name.token@);
    assert("label "@ + token_text(name.token@) =~= "label"@ + seq![' '] + token_text(name.token@));
    lemma_headed_form(
        render_stmt(stmt, indent),
        indent,
        "label"@,
        token_text(name.token@),
        token_item(name.token@),
        seq![render_stmt(body, deeper)],
        seq![stmt_core(body, deeper)],
        seq![stmt_item(body)],
    );
    assert(seq![token_item(name.token@)] + seq![stmt_item(body)] =~= seq![
        token_item(name.token@),
        stmt_item(body),
    ]);
}

/// An `if` statement without `else` is read as its item.
proof fn lemma_if_reads(stmt: StmtView, indent: Seq<char>)
    requires
        stmt.is_readable(),
        is_indent(indent),
        stmt is If,
        stmt->If_else_branch is None,
    ensures
        stmt_reads(stmt, indent),
    decreases stmt, 0nat,
{
    lemma_statement_words();
    lemma_break(indent);
    let deeper = indent + indent_unit();
    let condition = stmt->If_condition;
    let then_branch = *stmt->If_then_branch;
    lemma_stmt_reads(then_branch, deeper);
    lemma_expr_reads(condition);
    assert("if "@ + render_expr(condition) =~= "if"@ + seq![' '] + render_expr(condition));
    lemma_headed_form(
        render_stmt(stmt, indent),
        indent,
        "if"@,
        render_expr(condition),
        expr_item(condition),
        seq![render_stmt(then_branch, deeper)],
        seq![stmt_core(then_branch, deeper)],
        seq![stmt_item(then_branch)],
    );
    assert(seq![expr_item(condition)] + seq![stmt_item(then_branch)] =~= seq![
        expr_item(condition),
        stmt_item(then_branch),
    ]);
}

/// An `if` statement with `else` is read as its item.
proof fn lemma_if_else_reads(stmt: StmtView, indent: Seq<char>)
    requires
        stmt.is_readable(),
        is_indent(indent),
        stmt is If,
        stmt->If_else_branch is Some,
    ensures
        stmt_reads(stmt, indent),
    decreases stmt, 0nat,
{
    lemma_statement_words();
    lemma_break(indent);
    let deeper = indent + indent_unit();
    lemma_break(deeper);
    let deepest = deeper + indent_unit();
    let condition = stmt->If_condition;
    let then_branch = *stmt->If_then_branch;
    let other = *stmt->If_else_branch->Some_0;
    lemma_stmt_reads(then_branch, deeper);
    lemma_stmt_reads(other, deepest);
    lemma_expr_reads(condition);
    let else_text = nested(deeper, "else"@, seq![render_stmt(other, deepest)]);
    lemma_bare_form(
        else_text,
        deeper,
        "else"@,
        seq![render_stmt(other, deepest)],
        seq![stmt_core(other, deepest)],
        seq![stmt_item(other)],
    );
    let else_core = else_text.skip(deeper.len() as int);
    let else_item = Sexp::List("else"@, seq![stmt_item(other)]);
    assert("if "@ + render_expr(condition) =~= "if"@ + seq![' '] + render_expr(condition));
    lemma_headed_form(
        render_stmt(stmt, indent),
        indent,
        "if"@,
        render_expr(condition),
        expr_item(condition),
        seq![render_stmt(then_branch, deeper), else_text],
        seq![stmt_core(then_branch, deeper), else_core],
        seq![stmt_item(then_branch), else_item],
    );
    assert(seq![expr_item(condition)] + seq![stmt_item(then_branch), else_item] =~= seq![
        expr_item(condition),
        stmt_item(then_branch),
        else_item,
    ]);
}

/// A statement at an indentation is the indentation and a text that is read
/// as the item of the statement, whatever follows it that may follow an
/// item: for every statement that is well formed and whose names are words.
pub proof fn lemma_stmt_reads(stmt: StmtView, indent: Seq<char>)
    requires
        stmt.is_readable(),
        is_indent(indent),
    ensures
        stmt_reads(stmt, indent),
    decreases stmt, 1nat,
{
    match stmt {
        StmtView::Block { .. } => lemma_block_reads(stmt, indent),
        StmtView::Switch { .. } => lemma_switch_reads(stmt, indent),
        StmtView::While { .. } => lemma_while_reads(stmt, indent),
        StmtView::Case { .. } => lemma_case_reads(stmt, indent),
        StmtView::Default { .. } => lemma_default_reads(stmt, indent),
        StmtView::Label { .. } => lemma_label_reads(stmt, indent),
        StmtView::If { else_branch, .. } => {
            if else_branch is Some {
                lemma_if_else_reads(stmt, indent);
            } else {
                lemma_if_reads(stmt, indent);
            }
        },
        _ => lemma_plain_reads(stmt, indent),
    }
}

/// The words that head the lists differ: no two have the same length and the
/// same first two characters.
pub proof fn lemma_word_keys()
    ensures
        "block"@.len() == 5 && "block"@[0] == 'b' && "block"@[1] == 'l',
        "auto"@.len() == 4 && "auto"@[0] == 'a' && "auto"@[1] == 'u',
        "extrn"@.len() == 5 && "extrn"@[0] == 'e' && "extrn"@[1] == 'x',
        "expr"@.len() == 4 && "expr"@[0] == 'e' && "expr"@[1] == 'x',
        "if"@.len() == 2 && "if"@[0] == 'i' && "if"@[1] == 'f',
        "else"@.len() == 4 && "else"@[0] == 'e' && "else"@[1] == 'l',
        "while"@.len() == 5 && "while"@[0] == 'w' && "while"@[1] == 'h',
        "switch"@.len() == 6 && "switch"@[0] == 's' && "switch"@[1] == 'w',
        "case"@.len() == 4 && "case"@[0] == 'c' && "case"@[1] == 'a',
        "default"@.len() == 7 && "default"@[0] == 'd' && "default"@[1] == 'e',
        "label"@.len() == 5 && "label"@[0] == 'l' && "label"@[1] == 'a',
        "goto"@.len() == 4 && "goto"@[0] == 'g' && "goto"@[1] == 'o',
        "return"@.len() == 6 && "return"@[0] == 'r' && "return"@[1] == 'e',
        "null"@.len() == 4 && "null"@[0] == 'n' && "null"@[1] == 'u',
        "fn"@.len() == 2 && "fn"@[0] == 'f' && "fn"@[1] == 'n',
        "global"@.len() == 6 && "global"@[0] == 'g' && "global"@[1] == 'l',
{
    lemma_statement_words();
}

/// Whether two local declarations are the same but for where their tokens
/// were read.
pub open spec fn same_sized(
    name: SpannedToken,
    size: Option<SpannedToken>,
    other_name: SpannedToken,
    other_size: Option<SpannedToken>,
) -> bool {
    &&& same_token(name, other_name)
    &&& match (size, other_size) {
        (Some(one), Some(other)) => same_token(one, other),
        (None, None) => true,
        _ => false,
    }
}

/// Whether two sequences of tokens are the same but for where the tokens
/// were read.
pub open spec fn same_tokens(tokens: Seq<SpannedToken>, others: Seq<SpannedToken>) -> bool {
    tokens.len() == others.len() && forall|i: int|
        0 <= i < tokens.len() ==> same_token(#[trigger] tokens[i], others[i])
}

impl StmtView {
    /// Whether two statements have one shape: the same kinds of statements
    /// in the same places, with expressions of one shape and the same names,
    /// sizes and values. Where the tokens were read does not count.
    pub open spec fn same_shape(self, other: StmtView) -> bool
        decreases self,
    {
        match (self, other) {
            (StmtView::Block { statements: s1 }, StmtView::Block { statements: s2 }) => s1.len()
                == s2.len() && forall|i: int|
                0 <= i < s1.len() ==> (#[trigger] s1[i]).same_shape(s2[i]),
            (StmtView::Auto { declarations: d1 }, StmtView::Auto { declarations: d2 }) => d1.len()
                == d2.len() && forall|i: int|
                0 <= i < d1.len() ==> same_sized(
                    (#[trigger] d1[i]).name,
                    d1[i].size,
                    d2[i].name,
                    d2[i].size,
                ),
            (StmtView::Extrn { names: n1 }, StmtView::Extrn { names: n2 }) => same_tokens(n1, n2),
            (
                StmtView::Expression { expression: e1 },
                StmtView::Expression { expression: e2 },
            ) => e1.same_shape(e2),
            (
                StmtView::If { condition: c1, then_branch: t1, else_branch: e1 },
                StmtView::If { condition: c2, then_branch: t2, else_branch: e2 },
            ) => c1.same_shape(c2) && t1.same_shape(*t2) && match (e1, e2) {
                (Some(one), Some(other)) => one.same_shape(*other),
                (None, None) => true,
                _ => false,
            },
            (
                StmtView::While { condition: c1, body: b1 },
                StmtView::While { condition: c2, body: b2 },
            ) => c1.same_shape(c2) && b1.same_shape(*b2),
            (
                StmtView::Switch { condition: c1, cases: s1 },
                StmtView::Switch { condition: c2, cases: s2 },
            ) => c1.same_shape(c2) && s1.len() == s2.len() && forall|i: int|
                0 <= i < s1.len() ==> (#[trigger] s1[i]).same_shape(s2[i]),
            (StmtView::Case { value: v1, body: b1 }, StmtView::Case { value: v2, body: b2 }) => {
                same_token(v1, v2) && b1.same_shape(*b2)
            },
            (StmtView::Default { body: b1 }, StmtView::Default { body: b2 }) => b1.same_shape(
                *b2,
            ),
            (StmtView::Label { name: n1, body: b1 }, StmtView::Label { name: n2, body: b2 }) => {
                same_token(n1, n2) && b1.same_shape(*b2)
            },
            (StmtView::Goto { expression: e1 }, StmtView::Goto { expression: e2 }) => {
                e1.same_shape(e2)
            },
            (StmtView::Return { value: v1 }, StmtView::Return { value: v2 }) => match (v1, v2) {
                (Some(one), Some(other)) => one.same_shape(other),
                (None, None) => true,
                _ => false,
            },
            (StmtView::Null, StmtView::Null) => true,
            _ => false,
        }
    }
}

/// Two names with their sizes that have one text are one name with one
/// size.
pub proof fn lemma_sized_text_one(
    name: SpannedToken,
    size: Option<SpannedToken>,
    other_name: SpannedToken,
    other_size: Option<SpannedToken>,
)
    requires
        name.token@ matches TokenView::Identifier(word) && is_word(word),
        size matches Some(token) ==> token.token@ is Integer,
        other_name.token@ matches TokenView::Identifier(word) && is_word(word),
        other_size matches Some(token) ==> token.token@ is Integer,
        sized_text(name, size) == sized_text(other_name, other_size),
    ensures
        same_sized(name, size, other_name, other_size),
{
    let one = name.token@->Identifier_0;
    let other = other_name.token@->Identifier_0;
    let text = sized_text(name, size);
    let other_text = sized_text(other_name, other_size);
    assert forall|i: int| 0 <= i < one.len() implies text[i] == #[trigger] one[i] by {}
    assert forall|i: int| 0 <= i < other.len() implies other_text[i] == #[trigger] other[i] by {}
    if size is Some {
        assert(text[one.len() as int] == '[');
    } else {
        assert(text.len() == one.len());
    }
    if other_size is Some {
        assert(other_text[other.len() as int] == '[');
    } else {
        assert(other_text.len() == other.len());
    }
    if one.len() < other.len() {
        assert(crate::lexer::scanner::is_word_part(other[one.len() as int]));
    }
    if other.len() < one.len() {
        assert(crate::lexer::scanner::is_word_part(one[other.len() as int]));
    }
    assert(one.len() == other.len());
    assert(one =~= other);
    if size is Some {
        assert(other_size is Some);
        let a = size->Some_0.token@->Integer_0;
        let b = other_size->Some_0.token@->Integer_0;
        assert(text.subrange(one.len() as int + 1, text.len() - 1) =~= integer_text(a as int));
        assert(other_text.subrange(one.len() as int + 1, text.len() - 1) =~= integer_text(b as int));
        lemma_integer_text_one(a as int, b as int);
    }
}

/// Two sequences of statements that are read as the same items have one
/// shape, statement by statement.
proof fn lemma_stmt_items_shape(a: Seq<StmtView>, b: Seq<StmtView>)
    requires
        forall|i: int| 0 <= i < a.len() ==> (#[trigger] a[i]).is_readable(),
        forall|i: int| 0 <= i < b.len() ==> (#[trigger] b[i]).is_readable(),
        stmt_items(a) == stmt_items(b),
    ensures
        a.len() == b.len(),
        forall|i: int| 0 <= i < a.len() ==> (#[trigger] a[i]).same_shape(b[i]),
    decreases a, 0nat,
{
    lemma_stmt_items(a);
    lemma_stmt_items(b);
    assert(stmt_items(a).len() == stmt_items(b).len());
    assert(a.len() == b.len());
    assert forall|i: int| 0 <= i < a.len() implies (#[trigger] a[i]).same_shape(b[i]) by {
        assert(stmt_items(a)[i] == stmt_item(a[i]));
        assert(stmt_items(b)[i] == stmt_item(b[i]));
        lemma_one_stmt_item_one_shape(a[i], b[i]);
    }
}

/// Two statements that are read as one item have one shape: for all
/// statements that are well formed and whose names are words.
pub proof fn lemma_one_stmt_item_one_shape(a: StmtView, b: StmtView)
    requires
        a.is_readable(),
        b.is_readable(),
        stmt_item(a) == stmt_item(b),
    ensures
        a.same_shape(b),
    decreases a, 1nat,
{
    lemma_word_keys();
    let items_a = stmt_item(a)->List_1;
    let items_b = stmt_item(b)->List_1;
    assert(stmt_item(a)->List_0 == stmt_item(b)->List_0);
    assert(items_a == items_b);
    match a {
        StmtView::Block { statements } => {
            if b is Block {
                lemma_stmt_items_shape(statements, b->Block_statements);
            }
        },
        StmtView::Auto { declarations } => {
            if b is Auto {
                let others = b->Auto_declarations;
                assert(items_a.len() == items_b.len());
                assert forall|i: int| 0 <= i < declarations.len() implies same_sized(
                    (#[trigger] declarations[i]).name,
                    declarations[i].size,
                    others[i].name,
                    others[i].size,
                ) by {
                    assert(items_a[i] == items_b[i]);
                    assert(crate::parser::stmt::is_sized_name(
                        declarations[i].name,
                        declarations[i].size,
                    ));
                    assert(crate::parser::stmt::is_sized_name(others[i].name, others[i].size));
                    assert(is_plain(declarations[i].name.token@));
                    assert(is_plain(others[i].name.token@));
                    lemma_sized_text_one(
                        declarations[i].name,
                        declarations[i].size,
                        others[i].name,
                        others[i].size,
                    );
                }
            }
        },
        StmtView::Extrn { names } => {
            if b is Extrn {
                let others = b->Extrn_names;
                assert(items_a.len() == items_b.len());
                assert forall|i: int| 0 <= i < names.len() implies same_token(
                    #[trigger] names[i],
                    others[i],
                ) by {
                    assert(items_a[i] == items_b[i]);
                    assert(is_plain(names[i].token@));
                    assert(is_plain(others[i].token@));
                    lemma_token_item_one(names[i].token@, others[i].token@);
                }
            }
        },
        StmtView::Expression { expression } => {
            if b is Expression {
                assert(items_a[0] == items_b[0]);
                lemma_one_item_one_shape(expression, b->Expression_expression);
            }
        },
        StmtView::If { condition, then_branch, else_branch } => {
            if b is If {
                assert(items_a.len() == items_b.len());
                assert(items_a[0] == items_b[0]);
                assert(items_a[1] == items_b[1]);
                lemma_one_item_one_shape(condition, b->If_condition);
                lemma_one_stmt_item_one_shape(*then_branch, *b->If_then_branch);
                if else_branch is Some {
                    assert(items_a[2] == items_b[2]);
                    assert(items_a[2]->List_1[0] == items_b[2]->List_1[0]);
                    lemma_one_stmt_item_one_shape(
                        *else_branch->Some_0,
                        *b->If_else_branch->Some_0,
                    );
                }
            }
        },
        StmtView::While { condition, body } => {
            if b is While {
                assert(items_a[0] == items_b[0]);
                assert(items_a[1] == items_b[1]);
                lemma_one_item_one_shape(condition, b->While_condition);
                lemma_one_stmt_item_one_shape(*body, *b->While_body);
            }
        },
        StmtView::Switch { condition, cases } => {
            if b is Switch {
                let others = b->Switch_cases;
                lemma_stmt_items(cases);
                lemma_stmt_items(others);
                assert(items_a[0] == items_b[0]);
                lemma_one_item_one_shape(condition, b->Switch_condition);
                assert(items_a.len() == items_b.len());
                assert(stmt_items(cases) =~= stmt_items(others)) by {
                    assert forall|i: int| 0 <= i < cases.len() implies stmt_items(cases)[i]
                        == stmt_items(others)[i] by {
                        assert(items_a[i + 1] == stmt_items(cases)[i]);
                        assert(items_b[i + 1] == stmt_items(others)[i]);
                    }
                }
                lemma_stmt_items_shape(cases, others);
            }
        },
        StmtView::Case { value, body } => {
            if b is Case {
                assert(items_a[0] == items_b[0]);
                assert(items_a[1] == items_b[1]);
                lemma_token_item_one(value.token@, b->Case_value.token@);
                lemma_one_stmt_item_one_shape(*body, *b->Case_body);
            }
        },
        StmtView::Default { body } => {
            if b is Default {
                assert(items_a[0] == items_b[0]);
                lemma_one_stmt_item_one_shape(*body, *b->Default_body);
            }
        },
        StmtView::Label { name, body } => {
            if b is Label {
                assert(items_a[0] == items_b[0]);
                assert(items_a[1] == items_b[1]);
                assert(is_plain(name.token@));
                assert(is_plain(b->Label_name.token@));
                lemma_token_item_one(name.token@, b->Label_name.token@);
                lemma_one_stmt_item_one_shape(*body, *b->Label_body);
            }
        },
        StmtView::Goto { expression } => {
            if b is Goto {
                assert(items_a[0] == items_b[0]);
                lemma_one_item_one_shape(expression, b->Goto_expression);
            }
        },
        StmtView::Return { value } => {
            if b is Return {
                assert(items_a.len() == items_b.len());
                if value is Some {
                    assert(items_a[0] == items_b[0]);
                    lemma_one_item_one_shape(value->Some_0, b->Return_value->Some_0);
                }
            }
        },
        StmtView::Null => {},
    }
}

/// Two statements with one text have one shape: for all statements that are
/// well formed and whose names are words, at whatever indentations.
pub proof fn lemma_one_stmt_text_one_shape(
    a: StmtView,
    b: StmtView,
    indent: Seq<char>,
    other_indent: Seq<char>,
)
    requires
        a.is_readable(),
        b.is_readable(),
        is_indent(indent),
        is_indent(other_indent),
        render_stmt(a, indent) == render_stmt(b, other_indent),
    ensures
        a.same_shape(b),
{
    lemma_stmt_reads(a, indent);
    lemma_stmt_reads(b, other_indent);
    let text = render_stmt(a, indent);
    let core_a = stmt_core(a, indent);
    let core_b = stmt_core(b, other_indent);
    crate::ast::reading::lemma_reads(core_a, stmt_item(a), Seq::empty());
    crate::ast::reading::lemma_reads(core_b, stmt_item(b), Seq::empty());
    assert(is_blank_run(indent) && is_blank_run(other_indent));
    crate::ast::reading::lemma_blank_run(indent, core_a);
    crate::ast::reading::lemma_blank_run(other_indent, core_b);
    assert(indent.len() == other_indent.len());
    assert(core_a == core_b);
    lemma_one_stmt_item_one_shape(a, b);
}

} // verus!
