//! Reading the text of a program back: what the reader reads from it are
//! the forms of its items, from which their shapes can be told. So two
//! programs with one text have one shape.

use vstd::prelude::*;
use crate::ast::pretty_printer::{
    global_text, global_texts, indent_text, indent_unit, joined, listed, render_item,
    render_items, render_stmt, sized_text, spaced, token_text, token_texts,
};
use crate::ast::reading::{
    blank_len, ends_item, is_blank_run, is_delimiter, is_plain, is_word, lemma_blank_run,
    lemma_integer_text, lemma_listed_reads, lemma_no_blanks, lemma_reads, lemma_spaced_first,
    lemma_token_item_one, lemma_token_reads, read_all, read_item, reads_as, same_token,
    token_item, Sexp,
};
use crate::ast::reading_statements::{
    is_indent, lemma_break, lemma_joined_spaced, lemma_nested_form, lemma_one_stmt_item_one_shape,
    lemma_sized_reads, lemma_sized_text_one, lemma_statement_words, lemma_stmt_reads,
    lemma_word_keys, token_items, same_sized, same_tokens, stmt_core, stmt_item,
};
use crate::ast::{GlobalDeclView, ProgramView, TopLevelView};
use crate::lexer::scanner::{is_blank, is_word_start};
use crate::lexer::token::{SpannedToken, TokenView};

verus! {

/// What the parameters of a function in their parentheses are read as: a
/// list whose head is the first parameter.
pub open spec fn params_item(params: Seq<SpannedToken>) -> Sexp {
    if params.len() == 0 {
        Sexp::List(Seq::empty(), Seq::empty())
    } else {
        Sexp::List(token_text(params[0].token@), token_items(params.skip(1)))
    }
}

/// The texts of a global declaration: its name with its size, and its
/// initializers.
pub open spec fn decl_texts(decl: GlobalDeclView) -> Seq<Seq<char>> {
    seq![sized_text(decl.name, decl.size)] + match decl.initializer {
        Some(list) => token_texts(list),
        None => Seq::empty(),
    }
}

/// What the texts of a global declaration are read as.
pub open spec fn decl_items(decl: GlobalDeclView) -> Seq<Sexp> {
    seq![Sexp::Atom(sized_text(decl.name, decl.size))] + match decl.initializer {
        Some(list) => token_items(list),
        None => Seq::empty(),
    }
}

/// The texts of a sequence of global declarations, one after the other.
pub open spec fn flat_texts(decls: Seq<GlobalDeclView>) -> Seq<Seq<char>>
    decreases decls.len(),
{
    if decls.len() == 0 {
        Seq::empty()
    } else {
        flat_texts(decls.drop_last()) + decl_texts(decls.last())
    }
}

/// What the texts of a sequence of global declarations are read as.
pub open spec fn flat_items(decls: Seq<GlobalDeclView>) -> Seq<Sexp>
    decreases decls.len(),
{
    if decls.len() == 0 {
        Seq::empty()
    } else {
        flat_items(decls.drop_last()) + decl_items(decls.last())
    }
}

/// What the text of an item of a program is read as.
pub open spec fn top_item(item: TopLevelView) -> Sexp {
    match item {
        TopLevelView::Function(function) => Sexp::List(
            "fn"@,
            seq![
                token_item(function.name.token@),
                params_item(function.params),
                stmt_item(function.body),
            ],
        ),
        TopLevelView::Global(decls) => Sexp::List("global"@, flat_items(decls)),
    }
}

/// What the texts of the items of a program are read as.
pub open spec fn top_items(items: Seq<TopLevelView>) -> Seq<Sexp> {
    Seq::new(items.len(), |i: int| top_item(items[i]))
}

impl TopLevelView {
    /// Whether every name in the item is a word of the language.
    pub open spec fn has_plain_names(self) -> bool {
        match self {
            TopLevelView::Function(function) => {
                &&& is_plain(function.name.token@)
                &&& forall|i: int|
                    0 <= i < function.params.len() ==> is_plain(
                        (#[trigger] function.params[i]).token@,
                    )
                &&& function.body.has_plain_names()
            },
            TopLevelView::Global(decls) => forall|i: int|
                0 <= i < decls.len() ==> is_plain((#[trigger] decls[i]).name.token@),
        }
    }

    /// Whether the item is one that the parser builds of what the scanner
    /// yields: it is well formed and its names are words.
    pub open spec fn is_readable(self) -> bool {
        self.well_formed() && self.has_plain_names()
    }
}

impl ProgramView {
    /// Whether the program is one that the parser builds of what the scanner
    /// yields: its items are well formed and their names are words.
    pub open spec fn is_readable(self) -> bool {
        forall|i: int| 0 <= i < self.top_level.len() ==> (#[trigger] self.top_level[i]).is_readable()
    }
}

/// Whether a token is a name that is a word of the language.
pub open spec fn is_name(token: TokenView) -> bool {
    token matches TokenView::Identifier(word) && is_word(word)
}

/// The parts of a list are the first and the others each after a space.
proof fn lemma_joined_first(parts: Seq<Seq<char>>)
    requires
        parts.len() > 0,
    ensures
        joined(parts) == parts[0] + spaced(parts.drop_first()),
{
    lemma_joined_spaced(parts);
    assert(parts =~= seq![parts[0]] + parts.drop_first());
    lemma_spaced_first(parts[0], parts.drop_first());
    let left = seq![' '] + joined(parts);
    let right = seq![' '] + parts[0] + spaced(parts.drop_first());
    assert(left == right);
    assert(left.skip(1) =~= joined(parts));
    assert(right.skip(1) =~= parts[0] + spaced(parts.drop_first()));
}

/// The parameters of a function in their parentheses are read as their
/// item.
proof fn lemma_params_read(params: Seq<SpannedToken>)
    requires
        forall|i: int| 0 <= i < params.len() ==> is_name((#[trigger] params[i]).token@),
    ensures
        reads_as(seq!['('] + joined(token_texts(params)) + seq![')'], params_item(params)),
{
    let texts = token_texts(params);
    let text = seq!['('] + joined(texts) + seq![')'];
    if params.len() == 0 {
        lemma_listed_reads(Seq::empty(), Seq::empty(), Seq::empty());
        assert(text =~= listed(Seq::empty(), Seq::empty()));
    } else {
        let head = texts[0];
        let others = texts.drop_first();
        let items = token_items(params.skip(1));
        lemma_joined_first(texts);
        assert(text =~= listed(head, others));
        assert forall|i: int| 0 <= i < others.len() implies reads_as(#[trigger] others[i], items[i]) by {
            assert(others[i] == token_text(params[i + 1].token@));
            assert(params.skip(1)[i] == params[i + 1]);
            lemma_token_reads(params[i + 1].token@);
        }
        assert(is_word(head));
        assert forall|i: int| 0 <= i < head.len() implies !is_delimiter(#[trigger] head[i]) by {
            assert(crate::lexer::scanner::is_word_part(head[i]));
        }
        lemma_listed_reads(head, others, items);
    }
}

/// The text of a function is read as the item of the function.
proof fn lemma_function_reads(item: TopLevelView, indent: Seq<char>)
    requires
        item.is_readable(),
        item is Function,
        is_indent(indent),
    ensures
        reads_as(render_item(item, indent), top_item(item)),
{
    lemma_statement_words();
    lemma_break(indent);
    reveal_strlit(" (");
    reveal_strlit(")");
    let function = item->Function_0;
    let deeper = indent + indent_unit();
    let name = token_text(function.name.token@);
    let params = seq!['('] + joined(token_texts(function.params)) + seq![')'];
    let text = render_item(item, indent);
    lemma_stmt_reads(function.body, deeper);
    assert(is_plain(function.name.token@));
    lemma_token_reads(function.name.token@);
    assert forall|i: int| 0 <= i < function.params.len() implies is_name(
        (#[trigger] function.params[i]).token@,
    ) by {
        assert(is_plain(function.params[i].token@));
    }
    lemma_params_read(function.params);
    let head_blanks = seq![seq![' '], seq![' ']];
    let head_parts = seq![name, params];
    let head_items = seq![token_item(function.name.token@), params_item(function.params)];
    assert(head_blanks.drop_last() =~= seq![seq![' ']]);
    assert(head_parts.drop_last() =~= seq![name]);
    assert(seq![seq![' ']].drop_last() =~= Seq::<Seq<char>>::empty());
    assert(seq![name].drop_last() =~= Seq::<Seq<char>>::empty());
    reveal_with_fuel(crate::ast::reading::laid, 3);
    assert(" ("@ =~= seq![' ', '(']);
    assert(")"@ =~= seq![')']);
    assert("fn "@ + name + " ("@ + joined(token_texts(function.params)) + ")"@ =~= "fn"@
        + crate::ast::reading::laid(head_blanks, head_parts));
    assert(is_indent(Seq::<char>::empty()));
    lemma_nested_form(
        text,
        Seq::empty(),
        deeper,
        "fn"@,
        head_blanks,
        head_parts,
        head_items,
        seq![render_stmt(function.body, deeper)],
        seq![stmt_core(function.body, deeper)],
        seq![stmt_item(function.body)],
    );
    assert(text.skip(0) =~= text);
    assert(head_items + seq![stmt_item(function.body)] =~= seq![
        token_item(function.name.token@),
        params_item(function.params),
        stmt_item(function.body),
    ]);
}

/// Lists of parts after each other, each part after a space.
proof fn lemma_spaced_append(first: Seq<Seq<char>>, second: Seq<Seq<char>>)
    ensures
        spaced(first + second) == spaced(first) + spaced(second),
    decreases second.len(),
{
    if second.len() == 0 {
        assert(first + second =~= first);
        assert(spaced(first) + spaced(second) =~= spaced(first));
    } else {
        lemma_spaced_append(first, second.drop_last());
        assert((first + second).drop_last() =~= first + second.drop_last());
        assert((first + second).last() == second.last());
        assert(spaced(first + second) =~= spaced(first) + spaced(second));
    }
}

/// The texts of a global declaration, each after a space, are a space and
/// the text of the declaration.
proof fn lemma_decl_spaced(decl: GlobalDeclView)
    requires
        decl.well_formed(),
    ensures
        spaced(decl_texts(decl)) == seq![' '] + global_text(decl),
{
    let sized = sized_text(decl.name, decl.size);
    match decl.initializer {
        Some(list) => {
            let texts = token_texts(list);
            lemma_spaced_first(sized, texts);
            lemma_joined_spaced(texts);
            assert(spaced(decl_texts(decl)) =~= seq![' '] + global_text(decl));
        },
        None => {
            lemma_spaced_first(sized, Seq::empty());
            assert(decl_texts(decl) =~= seq![sized] + Seq::<Seq<char>>::empty());
            assert(spaced(Seq::<Seq<char>>::empty()) =~= Seq::<char>::empty());
            assert(spaced(decl_texts(decl)) =~= seq![' '] + global_text(decl));
        },
    }
}

/// The texts of a sequence of global declarations, each after a space, are a
/// space and the texts of the declarations with a space between one and the
/// next.
proof fn lemma_globals_spaced(decls: Seq<GlobalDeclView>)
    requires
        decls.len() > 0,
        forall|i: int| 0 <= i < decls.len() ==> (#[trigger] decls[i]).well_formed(),
    ensures
        spaced(flat_texts(decls)) == seq![' '] + joined(global_texts(decls)),
    decreases decls.len(),
{
    let texts = global_texts(decls);
    lemma_decl_spaced(decls.last());
    lemma_spaced_append(flat_texts(decls.drop_last()), decl_texts(decls.last()));
    assert(texts.last() == global_text(decls.last()));
    if decls.len() == 1 {
        assert(flat_texts(decls.drop_last()) =~= Seq::<Seq<char>>::empty());
        assert(spaced(flat_texts(decls.drop_last())) =~= Seq::<char>::empty());
        assert(spaced(flat_texts(decls)) =~= seq![' '] + joined(texts));
    } else {
        assert forall|i: int| 0 <= i < decls.drop_last().len() implies (
        #[trigger] decls.drop_last()[i]).well_formed() by {
            assert(decls.drop_last()[i] == decls[i]);
        }
        lemma_globals_spaced(decls.drop_last());
        assert(texts.drop_last() =~= global_texts(decls.drop_last()));
        assert(spaced(flat_texts(decls)) =~= seq![' '] + joined(texts));
    }
}

/// Each text of a global declaration is read as its item.
proof fn lemma_decl_reads(decl: GlobalDeclView)
    requires
        decl.well_formed(),
        is_plain(decl.name.token@),
    ensures
        decl_texts(decl).len() == decl_items(decl).len(),
        forall|i: int|
            0 <= i < decl_texts(decl).len() ==> reads_as(
                #[trigger] decl_texts(decl)[i],
                decl_items(decl)[i],
            ),
{
    let texts = decl_texts(decl);
    let items = decl_items(decl);
    lemma_sized_reads(decl.name, decl.size);
    assert forall|i: int| 0 <= i < texts.len() implies reads_as(#[trigger] texts[i], items[i]) by {
        if i > 0 {
            let list = decl.initializer->Some_0;
            assert(texts[i] == token_text(list[i - 1].token@));
            assert(items[i] == token_item(list[i - 1].token@));
            assert(list[i - 1].token.is_literal());
            lemma_token_reads(list[i - 1].token@);
        }
    }
}

/// Each text of a sequence of global declarations is read as its item.
proof fn lemma_flat_reads(decls: Seq<GlobalDeclView>)
    requires
        forall|i: int| 0 <= i < decls.len() ==> (#[trigger] decls[i]).well_formed() && is_plain(
            decls[i].name.token@,
        ),
    ensures
        flat_texts(decls).len() == flat_items(decls).len(),
        forall|i: int|
            0 <= i < flat_texts(decls).len() ==> reads_as(
                #[trigger] flat_texts(decls)[i],
                flat_items(decls)[i],
            ),
    decreases decls.len(),
{
    if decls.len() > 0 {
        let before = decls.drop_last();
        assert forall|i: int| 0 <= i < before.len() implies (#[trigger] before[i]).well_formed()
            && is_plain(before[i].name.token@) by {
            assert(before[i] == decls[i]);
        }
        lemma_flat_reads(before);
        lemma_decl_reads(decls.last());
        let texts = flat_texts(decls);
        let items = flat_items(decls);
        assert forall|i: int| 0 <= i < texts.len() implies reads_as(#[trigger] texts[i], items[i]) by {
            let split = flat_texts(before).len();
            if i < split {
                assert(texts[i] == flat_texts(before)[i]);
                assert(items[i] == flat_items(before)[i]);
            } else {
                assert(texts[i] == decl_texts(decls.last())[i - split]);
                assert(items[i] == decl_items(decls.last())[i - split]);
            }
        }
    }
}

/// The text of the global declarations of one statement is read as their
/// item.
proof fn lemma_globals_read(item: TopLevelView, indent: Seq<char>)
    requires
        item.is_readable(),
        item is Global,
    ensures
        reads_as(render_item(item, indent), top_item(item)),
{
    lemma_statement_words();
    let decls = item->Global_0;
    let text = render_item(item, indent);
    assert forall|i: int| 0 <= i < decls.len() implies (#[trigger] decls[i]).well_formed()
        && is_plain(decls[i].name.token@) by {}
    lemma_globals_spaced(decls);
    lemma_flat_reads(decls);
    assert(text =~= seq!['('] + "global"@ + (seq![' '] + joined(global_texts(decls))) + seq![')']);
    assert(text == listed("global"@, flat_texts(decls)));
    lemma_listed_reads("global"@, flat_texts(decls), flat_items(decls));
}

/// The text of an item of a program is read as the item's form, whatever
/// follows it that may follow an item: for every item that is well formed
/// and whose names are words.
pub proof fn lemma_item_reads(item: TopLevelView, indent: Seq<char>)
    requires
        item.is_readable(),
        is_indent(indent),
    ensures
        reads_as(render_item(item, indent), top_item(item)),
{
    match item {
        TopLevelView::Function(_) => lemma_function_reads(item, indent),
        TopLevelView::Global(_) => lemma_globals_read(item, indent),
    }
}

/// The texts of items with an empty line between them start with the text
/// of the first item.
proof fn lemma_render_items_first(first: TopLevelView, others: Seq<TopLevelView>, indent: Seq<char>)
    ensures
        render_items(seq![first] + others, indent) == if others.len() > 0 {
            render_item(first, indent) + "\n\n"@ + render_items(others, indent)
        } else {
            render_item(first, indent)
        },
    decreases others.len(),
{
    let items = seq![first] + others;
    if others.len() == 0 {
        assert(items =~= seq![first]);
    } else if others.len() == 1 {
        assert(items.drop_last() =~= seq![first]);
        assert(items.last() == others[0]);
        assert(items.len() == 2);
        assert(seq![first][0] == first);
        assert(render_items(seq![first], indent) == render_item(first, indent));
        assert(render_items(others, indent) == render_item(others[0], indent));
        assert(render_items(items, indent) == render_items(items.drop_last(), indent) + "\n\n"@
            + render_item(items.last(), indent));
        assert(render_items(items, indent) =~= render_item(first, indent) + "\n\n"@
            + render_items(others, indent));
    } else {
        lemma_render_items_first(first, others.drop_last(), indent);
        assert(items.drop_last() =~= seq![first] + others.drop_last());
        assert(items.last() == others.last());
        assert(render_items(items, indent) =~= render_item(first, indent) + "\n\n"@
            + render_items(others, indent));
    }
}

/// A text of blanks only starts with as many blanks as it is long.
proof fn lemma_all_blank(blanks: Seq<char>)
    requires
        is_blank_run(blanks),
    ensures
        blank_len(blanks) == blanks.len(),
    decreases blanks.len(),
{
    if blanks.len() > 0 {
        assert(is_blank(blanks[0]));
        assert forall|i: int| 0 <= i < blanks.drop_first().len() implies is_blank(
            #[trigger] blanks.drop_first()[i],
        ) by {
            assert(blanks.drop_first()[i] == blanks[i + 1]);
        }
        lemma_all_blank(blanks.drop_first());
    }
}

/// Blanks before an item do not change what the item is read as.
proof fn lemma_read_blanks(blanks: Seq<char>, text: Seq<char>)
    requires
        is_blank_run(blanks),
        text.len() > 0,
        !is_blank(text[0]),
    ensures
        read_item(blanks + text) == read_item(text),
{
    lemma_blank_run(blanks, text);
    lemma_no_blanks(text);
}

/// The items of a program are read back from its text, one after the other.
proof fn lemma_items_read_back(
    blanks: Seq<char>,
    items: Seq<TopLevelView>,
    indent: Seq<char>,
    read: Seq<Sexp>,
)
    requires
        is_blank_run(blanks),
        forall|i: int| 0 <= i < items.len() ==> (#[trigger] items[i]).is_readable(),
        is_indent(indent),
    ensures
        read_all(blanks + render_items(items, indent), read) == Some(read + top_items(items)),
    decreases items.len(),
{
    let text = blanks + render_items(items, indent);
    if items.len() == 0 {
        assert(text =~= blanks);
        lemma_all_blank(blanks);
        assert(read + top_items(items) =~= read);
    } else {
        let first = items[0];
        let others = items.drop_first();
        assert(items =~= seq![first] + others);
        lemma_render_items_first(first, others, indent);
        lemma_item_reads(first, indent);
        let part = render_item(first, indent);
        reveal_strlit("\n\n");
        let gap = if others.len() > 0 {
            "\n\n"@
        } else {
            Seq::<char>::empty()
        };
        assert(is_blank_run(gap));
        let after = gap + render_items(others, indent);
        assert(ends_item(after)) by {
            if others.len() > 0 {
                assert(after[0] == '\n');
            } else {
                assert(after =~= Seq::<char>::empty());
            }
        }
        assert(render_items(items, indent) =~= part + after);
        lemma_reads(part, top_item(first), after);
        let item = part + after;
        assert(item[0] == part[0]);
        assert(text =~= blanks + item);
        lemma_blank_run(blanks, item);
        lemma_read_blanks(blanks, item);
        assert forall|i: int| 0 <= i < others.len() implies (#[trigger] others[i]).is_readable() by {
            assert(others[i] == items[i + 1]);
        }
        lemma_items_read_back(gap, others, indent, read.push(top_item(first)));
        assert(read.push(top_item(first)) + top_items(others) =~= read + top_items(items)) by {
            assert forall|i: int| 0 <= i < others.len() implies top_items(others)[i] == top_items(
                items,
            )[i + 1] by {
                assert(others[i] == items[i + 1]);
            }
        }
    }
}

/// Reading the text of a program gives the forms of its items, in order:
/// for every program whose items are well formed and whose names are words.
pub proof fn lemma_program_is_read_back(program: ProgramView, indent: Seq<char>)
    requires
        program.is_readable(),
        is_indent(indent),
    ensures
        read_all(render_items(program.top_level, indent), Seq::empty()) == Some(
            top_items(program.top_level),
        ),
{
    lemma_items_read_back(Seq::empty(), program.top_level, indent, Seq::empty());
    assert(Seq::<char>::empty() + render_items(program.top_level, indent) =~= render_items(
        program.top_level,
        indent,
    ));
    assert(Seq::<Sexp>::empty() + top_items(program.top_level) =~= top_items(program.top_level));
}

/// The indentation of a number of levels is an indentation.
pub proof fn lemma_indent_text(levels: nat)
    ensures
        is_indent(indent_text(levels)),
    decreases levels,
{
    if levels > 0 {
        lemma_indent_text((levels - 1) as nat);
        lemma_break(indent_text((levels - 1) as nat));
    }
}

impl GlobalDeclView {
    /// Whether two global declarations are the same but for where their
    /// tokens were read.
    pub open spec fn same_shape(self, other: GlobalDeclView) -> bool {
        &&& same_sized(self.name, self.size, other.name, other.size)
        &&& match (self.initializer, other.initializer) {
            (Some(one), Some(two)) => same_tokens(one, two),
            (None, None) => true,
            _ => false,
        }
    }
}

impl TopLevelView {
    /// Whether two items have one shape: the same kind, the same names and
    /// declarations, and bodies of one shape.
    pub open spec fn same_shape(self, other: TopLevelView) -> bool {
        match (self, other) {
            (TopLevelView::Function(one), TopLevelView::Function(two)) => {
                &&& same_token(one.name, two.name)
                &&& same_tokens(one.params, two.params)
                &&& one.body.same_shape(two.body)
            },
            (TopLevelView::Global(one), TopLevelView::Global(two)) => one.len() == two.len()
                && forall|i: int| 0 <= i < one.len() ==> (#[trigger] one[i]).same_shape(two[i]),
            _ => false,
        }
    }
}

impl ProgramView {
    /// Whether two programs have one shape: as many items, each of one shape
    /// with the item in its place.
    pub open spec fn same_shape(self, other: ProgramView) -> bool {
        self.top_level.len() == other.top_level.len() && forall|i: int|
            0 <= i < self.top_level.len() ==> (#[trigger] self.top_level[i]).same_shape(
                other.top_level[i],
            )
    }
}

/// Whether an item is what a literal is read as: the content of a string, or
/// a word that starts like no name.
pub open spec fn is_literal_item(item: Sexp) -> bool {
    item is Text || (item matches Sexp::Atom(text) && text.len() > 0 && !is_word_start(text[0]))
}

/// Of what a global declaration is read as, the first item is its name with
/// its size, and the others are literals.
proof fn lemma_decl_items_kinds(decl: GlobalDeclView)
    requires
        decl.well_formed(),
        is_plain(decl.name.token@),
    ensures
        decl_items(decl).len() >= 1,
        decl.initializer is None <==> decl_items(decl).len() == 1,
        decl.initializer matches Some(list) ==> decl_items(decl).len() == 1 + list.len(),
        !is_literal_item(decl_items(decl)[0]),
        forall|i: int| 1 <= i < decl_items(decl).len() ==> is_literal_item(
            #[trigger] decl_items(decl)[i],
        ),
{
    let items = decl_items(decl);
    let sized = sized_text(decl.name, decl.size);
    let word = decl.name.token@->Identifier_0;
    assert(sized[0] == word[0]);
    assert forall|i: int| 1 <= i < items.len() implies is_literal_item(#[trigger] items[i]) by {
        let list = decl.initializer->Some_0;
        let token = list[i - 1].token@;
        assert(items[i] == token_item(token));
        assert(list[i - 1].token.is_literal());
        if token is Integer {
            lemma_integer_text(token->Integer_0 as int);
        }
        if token is CharLiteral {
            assert(token_text(token)[0] == '\'');
        }
    }
}

/// Two sequences of global declarations that are read as the same items have
/// one shape, declaration by declaration.
proof fn lemma_flat_items_shape(a: Seq<GlobalDeclView>, b: Seq<GlobalDeclView>)
    requires
        forall|i: int| 0 <= i < a.len() ==> (#[trigger] a[i]).well_formed() && is_plain(
            a[i].name.token@,
        ),
        forall|i: int| 0 <= i < b.len() ==> (#[trigger] b[i]).well_formed() && is_plain(
            b[i].name.token@,
        ),
        flat_items(a) == flat_items(b),
    ensures
        a.len() == b.len(),
        forall|i: int| 0 <= i < a.len() ==> (#[trigger] a[i]).same_shape(b[i]),
    decreases a.len(),
{
    if a.len() == 0 {
        if b.len() > 0 {
            lemma_decl_items_kinds(b.last());
        }
    } else if b.len() == 0 {
        lemma_decl_items_kinds(a.last());
    } else {
        let one = a.last();
        let two = b.last();
        lemma_decl_items_kinds(one);
        lemma_decl_items_kinds(two);
        let before_a = flat_items(a.drop_last());
        let before_b = flat_items(b.drop_last());
        let last_a = decl_items(one);
        let last_b = decl_items(two);
        let all = flat_items(a);
        assert(all == before_a + last_a);
        assert(all == before_b + last_b);
        let n = all.len() as int;
        let ka = last_a.len() as int;
        let kb = last_b.len() as int;
        assert(all[n - ka] == last_a[0]);
        assert(all[n - kb] == last_b[0]);
        if ka < kb {
            assert(all[n - ka] == last_b[kb - ka]);
        }
        if kb < ka {
            assert(all[n - kb] == last_a[ka - kb]);
        }
        assert(ka == kb);
        assert(last_a =~= last_b) by {
            assert forall|i: int| 0 <= i < ka implies last_a[i] == last_b[i] by {
                assert(all[n - ka + i] == last_a[i]);
                assert(all[n - ka + i] == last_b[i]);
            }
        }
        assert(before_a =~= before_b) by {
            assert forall|i: int| 0 <= i < n - ka implies before_a[i] == before_b[i] by {
                assert(all[i] == before_a[i]);
                assert(all[i] == before_b[i]);
            }
        }
        assert(one.same_shape(two)) by {
            assert(last_a[0] == last_b[0]);
            lemma_sized_text_one(one.name, one.size, two.name, two.size);
            if one.initializer is Some {
                let list_a = one.initializer->Some_0;
                let list_b = two.initializer->Some_0;
                assert forall|i: int| 0 <= i < list_a.len() implies same_token(
                    #[trigger] list_a[i],
                    list_b[i],
                ) by {
                    assert(last_a[i + 1] == token_item(list_a[i].token@));
                    assert(last_b[i + 1] == token_item(list_b[i].token@));
                    assert(list_a[i].token.is_literal());
                    assert(list_b[i].token.is_literal());
                    lemma_token_item_one(list_a[i].token@, list_b[i].token@);
                }
            }
        }
        assert forall|i: int| 0 <= i < a.drop_last().len() implies (
        #[trigger] a.drop_last()[i]).well_formed() && is_plain(a.drop_last()[i].name.token@) by {
            assert(a.drop_last()[i] == a[i]);
        }
        assert forall|i: int| 0 <= i < b.drop_last().len() implies (
        #[trigger] b.drop_last()[i]).well_formed() && is_plain(b.drop_last()[i].name.token@) by {
            assert(b.drop_last()[i] == b[i]);
        }
        lemma_flat_items_shape(a.drop_last(), b.drop_last());
        assert forall|i: int| 0 <= i < a.len() implies (#[trigger] a[i]).same_shape(b[i]) by {
            if i < a.len() - 1 {
                assert(a.drop_last()[i] == a[i]);
                assert(b.drop_last()[i] == b[i]);
                assert(a.drop_last()[i].same_shape(b.drop_last()[i]));
            }
        }
    }
}

/// Two lists of parameters that are read as one item are the same names.
proof fn lemma_params_item_one(a: Seq<SpannedToken>, b: Seq<SpannedToken>)
    requires
        forall|i: int| 0 <= i < a.len() ==> is_name((#[trigger] a[i]).token@),
        forall|i: int| 0 <= i < b.len() ==> is_name((#[trigger] b[i]).token@),
        params_item(a) == params_item(b),
    ensures
        same_tokens(a, b),
{
    if a.len() == 0 {
        if b.len() > 0 {
            assert(is_name(b[0].token@));
            assert(token_text(b[0].token@).len() > 0);
        }
    } else if b.len() == 0 {
        assert(is_name(a[0].token@));
        assert(token_text(a[0].token@).len() > 0);
    } else {
        assert(is_name(a[0].token@));
        assert(is_name(b[0].token@));
        let items_a = token_items(a.skip(1));
        let items_b = token_items(b.skip(1));
        assert(items_a == items_b);
        assert(a.len() == b.len()) by {
            assert(items_a.len() == a.len() - 1);
            assert(items_b.len() == b.len() - 1);
        }
        assert forall|i: int| 0 <= i < a.len() implies same_token(#[trigger] a[i], b[i]) by {
            if i > 0 {
                assert(items_a[i - 1] == token_item(a[i].token@));
                assert(items_b[i - 1] == token_item(b[i].token@));
                assert(is_name(a[i].token@));
                assert(is_name(b[i].token@));
                lemma_token_item_one(a[i].token@, b[i].token@);
            }
        }
    }
}

/// Two items that are read as one form have one shape: for all items that
/// are well formed and whose names are words.
pub proof fn lemma_one_top_item_one_shape(a: TopLevelView, b: TopLevelView)
    requires
        a.is_readable(),
        b.is_readable(),
        top_item(a) == top_item(b),
    ensures
        a.same_shape(b),
{
    lemma_word_keys();
    let items_a = top_item(a)->List_1;
    let items_b = top_item(b)->List_1;
    assert(top_item(a)->List_0 == top_item(b)->List_0);
    assert(items_a == items_b);
    match a {
        TopLevelView::Function(one) => {
            if b is Function {
                let two = b->Function_0;
                assert(items_a[0] == items_b[0]);
                assert(items_a[1] == items_b[1]);
                assert(items_a[2] == items_b[2]);
                assert(is_plain(one.name.token@));
                assert(is_plain(two.name.token@));
                lemma_token_item_one(one.name.token@, two.name.token@);
                assert forall|i: int| 0 <= i < one.params.len() implies is_name(
                    (#[trigger] one.params[i]).token@,
                ) by {
                    assert(is_plain(one.params[i].token@));
                }
                assert forall|i: int| 0 <= i < two.params.len() implies is_name(
                    (#[trigger] two.params[i]).token@,
                ) by {
                    assert(is_plain(two.params[i].token@));
                }
                lemma_params_item_one(one.params, two.params);
                lemma_one_stmt_item_one_shape(one.body, two.body);
            }
        },
        TopLevelView::Global(one) => {
            if b is Global {
                let two = b->Global_0;
                assert forall|i: int| 0 <= i < one.len() implies (#[trigger] one[i]).well_formed()
                    && is_plain(one[i].name.token@) by {}
                assert forall|i: int| 0 <= i < two.len() implies (#[trigger] two[i]).well_formed()
                    && is_plain(two[i].name.token@) by {}
                lemma_flat_items_shape(one, two);
            }
        },
    }
}

/// Two programs with one text have one shape: for all programs whose items
/// are well formed and whose names are words, as the parser builds them of
/// what the scanner yields, at whatever indentations they were printed. So
/// what is read back from the text of a program has the shape of the
/// program.
pub proof fn lemma_one_program_text_one_shape(
    a: ProgramView,
    b: ProgramView,
    indent: Seq<char>,
    other_indent: Seq<char>,
)
    requires
        a.is_readable(),
        b.is_readable(),
        is_indent(indent),
        is_indent(other_indent),
        render_items(a.top_level, indent) == render_items(b.top_level, other_indent),
    ensures
        a.same_shape(b),
{
    lemma_program_is_read_back(a, indent);
    lemma_program_is_read_back(b, other_indent);
    let items_a = top_items(a.top_level);
    let items_b = top_items(b.top_level);
    assert(items_a == items_b);
    assert(a.top_level.len() == b.top_level.len()) by {
        assert(items_a.len() == a.top_level.len());
        assert(items_b.len() == b.top_level.len());
    }
    assert forall|i: int| 0 <= i < a.top_level.len() implies (
    #[trigger] a.top_level[i]).same_shape(b.top_level[i]) by {
        assert(items_a[i] == top_item(a.top_level[i]));
        assert(items_b[i] == top_item(b.top_level[i]));
        lemma_one_top_item_one_shape(a.top_level[i], b.top_level[i]);
    }
}

} // verus!
