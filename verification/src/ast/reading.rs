//! Reading a rendering back.
//!
//! The text that the printer writes is a list in parentheses of a head and
//! items, each item a word, a string in quotes or a list in its turn. The
//! reader of this module takes such a text apart again. What it reads from
//! the text of an expression is the expression's form, from which its shape
//! can be told: so two expressions with one text have one shape.

use vstd::prelude::*;
use crate::ast::pretty_printer::{
    decimal_text, escaped_text, integer_text, lemma_render_exprs, listed, operator_text,
    render_expr, render_exprs, spaced, token_text,
};
use crate::ast::ExprView;
use crate::lexer::laws::{lemma_decimal_text, lemma_quoted_escaped};
use crate::lexer::scanner::{
    is_blank, is_digit, is_word_part, is_word_start, quoted_from,
};
use crate::lexer::token::{Operator, SpannedToken, Token, TokenView};

verus! {

/// What a text in parentheses holds: a word, the content of a string in
/// quotes, or a list with its head and its items.
pub enum Sexp {
    Atom(Seq<char>),
    Text(Seq<char>),
    List(Seq<char>, Seq<Sexp>),
}

/// Whether a character ends a word: a blank or a parenthesis.
pub open spec fn is_delimiter(c: char) -> bool {
    is_blank(c) || c == '(' || c == ')'
}

/// The number of blanks that a text starts with.
pub open spec fn blank_len(text: Seq<char>) -> nat
    decreases text.len(),
{
    if text.len() > 0 && is_blank(text[0]) {
        1 + blank_len(text.drop_first())
    } else {
        0
    }
}

/// The length of the word that a text starts with: its characters up to the
/// first that ends a word.
pub open spec fn bare_len(text: Seq<char>) -> nat
    decreases text.len(),
{
    if text.len() > 0 && !is_delimiter(text[0]) {
        1 + bare_len(text.drop_first())
    } else {
        0
    }
}

/// The item that a text starts with, after blanks, and the text after it;
/// nothing where the text starts with no item.
pub open spec fn read_item(text: Seq<char>) -> Option<(Sexp, Seq<char>)>
    decreases text.len(), 0nat,
{
    let blanks = blank_len(text);
    if blanks >= text.len() {
        None
    } else {
        let item = text.skip(blanks as int);
        if item[0] == '(' {
            let head = bare_len(item.skip(1));
            if 1 + head <= item.len() {
                match read_items(item.skip(1 + head as int), Seq::empty()) {
                    Some((items, rest)) => Some(
                        (Sexp::List(item.subrange(1, 1 + head as int), items), rest),
                    ),
                    None => None,
                }
            } else {
                None
            }
        } else if item[0] == ')' {
            None
        } else if item[0] == '"' {
            match quoted_from(item, 1, '"', Seq::empty()) {
                Some((content, end)) => if 0 <= end <= item.len() {
                    Some((Sexp::Text(content), item.skip(end)))
                } else {
                    None
                },
                None => None,
            }
        } else {
            let word = bare_len(item);
            if word <= item.len() {
                Some((Sexp::Atom(item.take(word as int)), item.skip(word as int)))
            } else {
                None
            }
        }
    }
}

/// The items that a text holds up to the parenthesis that closes their list,
/// after the items in `read`, and the text after that parenthesis; nothing
/// where the list is not closed.
pub open spec fn read_items(text: Seq<char>, read: Seq<Sexp>) -> Option<(Seq<Sexp>, Seq<char>)>
    decreases text.len(), 1nat,
{
    let blanks = blank_len(text);
    if blanks >= text.len() {
        None
    } else {
        let item = text.skip(blanks as int);
        if item[0] == ')' {
            Some((read, item.skip(1)))
        } else {
            match read_item(item) {
                Some((first, rest)) => if rest.len() < item.len() {
                    read_items(rest, read.push(first))
                } else {
                    None
                },
                None => None,
            }
        }
    }
}

/// The items that a text holds, one after the other, after the items in
/// `read`; nothing where the text holds what is no item.
pub open spec fn read_all(text: Seq<char>, read: Seq<Sexp>) -> Option<Seq<Sexp>>
    decreases text.len(),
{
    if blank_len(text) >= text.len() {
        Some(read)
    } else {
        match read_item(text) {
            Some((item, rest)) => if rest.len() < text.len() {
                read_all(rest, read.push(item))
            } else {
                None
            },
            None => None,
        }
    }
}

/// Whether a text may follow an item: it is empty or starts with a character
/// that ends a word.
pub open spec fn ends_item(after: Seq<char>) -> bool {
    after.len() == 0 || is_delimiter(after[0])
}

/// Whether a text is read as an item, whatever follows it that may follow an
/// item.
#[verifier::opaque]
pub open spec fn reads_as(text: Seq<char>, item: Sexp) -> bool {
    &&& text.len() > 0
    &&& !is_blank(text[0])
    &&& text[0] != ')'
    &&& forall|after: Seq<char>|
        ends_item(after) ==> #[trigger] read_item(text + after) == Some((item, after))
}

/// What it is for a text to be read as an item, for one text that follows
/// it.
pub proof fn lemma_reads(text: Seq<char>, item: Sexp, after: Seq<char>)
    requires
        reads_as(text, item),
        ends_item(after),
    ensures
        text.len() > 0,
        !is_blank(text[0]),
        text[0] != ')',
        read_item(text + after) == Some((item, after)),
{
    reveal(reads_as);
}

/// A text after a space starts with one blank, unless it starts with a blank
/// itself.
proof fn lemma_after_space(text: Seq<char>)
    requires
        text.len() > 0,
        !is_blank(text[0]),
    ensures
        blank_len(seq![' '] + text) == 1,
        (seq![' '] + text).skip(1) == text,
{
    let spaced = seq![' '] + text;
    assert(spaced.drop_first() =~= text);
    assert(spaced.skip(1) =~= text);
    assert(blank_len(text) == 0);
}

/// A text that starts with no blank starts with no blanks.
pub proof fn lemma_no_blanks(text: Seq<char>)
    requires
        text.len() > 0,
        !is_blank(text[0]),
    ensures
        blank_len(text) == 0,
        text.skip(0) == text,
{
    assert(text.skip(0) =~= text);
}

/// A word before a text that may follow an item is the word that the whole
/// starts with.
proof fn lemma_bare_len(word: Seq<char>, after: Seq<char>)
    requires
        forall|i: int| 0 <= i < word.len() ==> !is_delimiter(#[trigger] word[i]),
        ends_item(after),
    ensures
        bare_len(word + after) == word.len(),
        (word + after).take(word.len() as int) == word,
        (word + after).skip(word.len() as int) == after,
    decreases word.len(),
{
    assert((word + after).take(word.len() as int) =~= word);
    assert((word + after).skip(word.len() as int) =~= after);
    if word.len() == 0 {
        assert(word + after =~= after);
    } else {
        assert((word + after).drop_first() =~= word.drop_first() + after);
        lemma_bare_len(word.drop_first(), after);
    }
}

/// A word is read as itself.
pub proof fn lemma_atom_reads(word: Seq<char>)
    requires
        word.len() > 0,
        forall|i: int| 0 <= i < word.len() ==> !is_delimiter(#[trigger] word[i]),
        word[0] != '"',
    ensures
        reads_as(word, Sexp::Atom(word)),
{
    reveal(reads_as);
    assert forall|after: Seq<char>| ends_item(after) implies #[trigger] read_item(word + after)
        == Some((Sexp::Atom(word), after)) by {
        let text = word + after;
        assert(text[0] == word[0]);
        lemma_no_blanks(text);
        lemma_bare_len(word, after);
    }
}

/// A string in quotes is read as its content: the escapes are resolved.
pub proof fn lemma_text_reads(content: Seq<char>)
    ensures
        reads_as(seq!['"'] + escaped_text(content) + seq!['"'], Sexp::Text(content)),
{
    let quoted = seq!['"'] + escaped_text(content) + seq!['"'];
    reveal(reads_as);
    assert forall|after: Seq<char>| ends_item(after) implies #[trigger] read_item(quoted + after)
        == Some((Sexp::Text(content), after)) by {
        let text = quoted + after;
        assert(text =~= seq!['"'] + escaped_text(content) + seq!['"'] + after);
        assert(text[0] == '"');
        lemma_no_blanks(text);
        lemma_quoted_escaped(text, seq!['"'], content, after, Seq::empty());
        assert(Seq::<char>::empty() + content =~= content);
        assert(text.skip(quoted.len() as int) =~= after);
    }
}

/// The items of a list start with the first: a space, the first item, and
/// the others.
pub proof fn lemma_spaced_first(first: Seq<char>, others: Seq<Seq<char>>)
    ensures
        spaced(seq![first] + others) == seq![' '] + first + spaced(others),
    decreases others.len(),
{
    if others.len() == 0 {
        assert(seq![first] + others =~= seq![first]);
        assert(seq![first].drop_last() =~= Seq::<Seq<char>>::empty());
        reveal_with_fuel(spaced, 2);
        assert(spaced(seq![first]) =~= seq![' '] + first + spaced(others));
    } else {
        lemma_spaced_first(first, others.drop_last());
        assert((seq![first] + others).drop_last() =~= seq![first] + others.drop_last());
        assert(spaced(seq![first] + others) =~= seq![' '] + first + spaced(others));
    }
}

/// The items of a list, each after a space, are read one after the other up
/// to the parenthesis that closes the list.
proof fn lemma_items_read(
    parts: Seq<Seq<char>>,
    items: Seq<Sexp>,
    read: Seq<Sexp>,
    after: Seq<char>,
)
    requires
        parts.len() == items.len(),
        forall|i: int| 0 <= i < parts.len() ==> reads_as(#[trigger] parts[i], items[i]),
    ensures
        read_items(spaced(parts) + seq![')'] + after, read) == Some((read + items, after)),
        (spaced(parts) + seq![')'])[0] == ' ' || (spaced(parts) + seq![')'])[0] == ')',
    decreases parts.len(),
{
    let text = spaced(parts) + seq![')'] + after;
    if parts.len() == 0 {
        assert(text =~= seq![')'] + after);
        lemma_no_blanks(text);
        assert(text.skip(1) =~= after);
        assert(read + items =~= read);
    } else {
        let first = parts[0];
        let others = parts.drop_first();
        assert(parts =~= seq![first] + others);
        lemma_spaced_first(first, others);
        let follow = spaced(others) + seq![')'] + after;
        assert(read_items(follow, read.push(items[0])) == Some((read + items, after))
            && ends_item(follow)) by {
            assert forall|i: int| 0 <= i < others.len() implies reads_as(
                #[trigger] others[i],
                items.drop_first()[i],
            ) by {
                assert(others[i] == parts[i + 1]);
            }
            lemma_items_read(others, items.drop_first(), read.push(items[0]), after);
            assert(follow[0] == (spaced(others) + seq![')'])[0]);
            assert(read.push(items[0]) + items.drop_first() =~= read + items);
        }
        assert(reads_as(first, items[0]));
        lemma_reads(first, items[0], follow);
        let item = first + follow;
        assert(item[0] == first[0]);
        assert(text == seq![' '] + item) by {
            assert(text =~= seq![' '] + item);
        }
        lemma_after_space(item);
        assert(follow.len() < item.len());
        assert(text[0] == ' ');
    }
}

/// A list of a head and items that are read is read as the list.
pub proof fn lemma_listed_reads(head: Seq<char>, parts: Seq<Seq<char>>, items: Seq<Sexp>)
    requires
        forall|i: int| 0 <= i < head.len() ==> !is_delimiter(#[trigger] head[i]),
        parts.len() == items.len(),
        forall|i: int| 0 <= i < parts.len() ==> reads_as(#[trigger] parts[i], items[i]),
    ensures
        reads_as(listed(head, parts), Sexp::List(head, items)),
{
    let list = listed(head, parts);
    assert(list[0] == '(');
    reveal(reads_as);
    assert forall|after: Seq<char>| ends_item(after) implies #[trigger] read_item(list + after)
        == Some((Sexp::List(head, items), after)) by {
        let text = list + after;
        let follow = spaced(parts) + seq![')'] + after;
        assert(text =~= seq!['('] + (head + follow));
        lemma_no_blanks(text);
        assert(text.skip(1) =~= head + follow);
        lemma_items_read(parts, items, Seq::empty(), after);
        assert(follow[0] == (spaced(parts) + seq![')'])[0]);
        lemma_bare_len(head, follow);
        assert(text.subrange(1, 1 + head.len() as int) =~= head);
        assert(text.skip(1 + head.len() as int) =~= follow);
        assert(Seq::<Sexp>::empty() + items =~= items);
    }
}

/// Whether a text holds blanks only.
pub open spec fn is_blank_run(text: Seq<char>) -> bool {
    forall|i: int| 0 <= i < text.len() ==> is_blank(#[trigger] text[i])
}

/// Items laid out one after the other, each after the blanks that part it
/// from what stands before it.
pub open spec fn laid(blanks: Seq<Seq<char>>, parts: Seq<Seq<char>>) -> Seq<char>
    decreases parts.len(),
{
    if parts.len() == 0 {
        Seq::empty()
    } else {
        laid(blanks.drop_last(), parts.drop_last()) + blanks.last() + parts.last()
    }
}

/// Items laid out start with the first: its blanks, the item, and the
/// others.
pub proof fn lemma_laid_first(
    blank: Seq<char>,
    part: Seq<char>,
    blanks: Seq<Seq<char>>,
    parts: Seq<Seq<char>>,
)
    requires
        blanks.len() == parts.len(),
    ensures
        laid(seq![blank] + blanks, seq![part] + parts) == blank + part + laid(blanks, parts),
    decreases parts.len(),
{
    let all_blanks = seq![blank] + blanks;
    let all_parts = seq![part] + parts;
    if parts.len() == 0 {
        assert(all_blanks.drop_last() =~= Seq::<Seq<char>>::empty());
        assert(all_parts.drop_last() =~= Seq::<Seq<char>>::empty());
        reveal_with_fuel(laid, 2);
        assert(laid(all_blanks, all_parts) =~= blank + part + laid(blanks, parts));
    } else {
        lemma_laid_first(blank, part, blanks.drop_last(), parts.drop_last());
        assert(all_blanks.drop_last() =~= seq![blank] + blanks.drop_last());
        assert(all_parts.drop_last() =~= seq![part] + parts.drop_last());
        assert(laid(all_blanks, all_parts) =~= blank + part + laid(blanks, parts));
    }
}

/// Blanks before a text that starts with no blank are the blanks that the
/// whole starts with.
pub proof fn lemma_blank_run(blanks: Seq<char>, text: Seq<char>)
    requires
        is_blank_run(blanks),
        text.len() > 0,
        !is_blank(text[0]),
    ensures
        blank_len(blanks + text) == blanks.len(),
        (blanks + text).skip(blanks.len() as int) == text,
    decreases blanks.len(),
{
    assert((blanks + text).skip(blanks.len() as int) =~= text);
    if blanks.len() == 0 {
        assert(blanks + text =~= text);
    } else {
        assert(is_blank(blanks[0]));
        assert((blanks + text).drop_first() =~= blanks.drop_first() + text);
        assert(is_blank_run(blanks.drop_first())) by {
            assert forall|i: int| 0 <= i < blanks.drop_first().len() implies is_blank(
                #[trigger] blanks.drop_first()[i],
            ) by {
                assert(blanks.drop_first()[i] == blanks[i + 1]);
            }
        }
        lemma_blank_run(blanks.drop_first(), text);
    }
}

/// Items laid out are read one after the other up to the parenthesis that
/// closes their list, whatever blanks stand before that parenthesis.
proof fn lemma_laid_read(
    blanks: Seq<Seq<char>>,
    parts: Seq<Seq<char>>,
    items: Seq<Sexp>,
    closing: Seq<char>,
    read: Seq<Sexp>,
    after: Seq<char>,
)
    requires
        blanks.len() == parts.len(),
        parts.len() == items.len(),
        forall|i: int| 0 <= i < blanks.len() ==> (#[trigger] blanks[i]).len() > 0 && is_blank_run(
            blanks[i],
        ),
        forall|i: int| 0 <= i < parts.len() ==> reads_as(#[trigger] parts[i], items[i]),
        is_blank_run(closing),
    ensures
        read_items(laid(blanks, parts) + closing + seq![')'] + after, read) == Some(
            (read + items, after),
        ),
        ends_item(laid(blanks, parts) + closing + seq![')'] + after),
    decreases parts.len(),
{
    let text = laid(blanks, parts) + closing + seq![')'] + after;
    if parts.len() == 0 {
        let close = seq![')'] + after;
        assert(text =~= closing + close);
        lemma_blank_run(closing, close);
        assert(close.skip(1) =~= after);
        assert(read + items =~= read);
        if closing.len() > 0 {
            assert(text[0] == closing[0]);
        } else {
            assert(text[0] == ')');
        }
    } else {
        let blank = blanks[0];
        let part = parts[0];
        let other_blanks = blanks.drop_first();
        let others = parts.drop_first();
        assert(blanks =~= seq![blank] + other_blanks);
        assert(parts =~= seq![part] + others);
        lemma_laid_first(blank, part, other_blanks, others);
        let follow = laid(other_blanks, others) + closing + seq![')'] + after;
        assert(read_items(follow, read.push(items[0])) == Some((read + items, after))
            && ends_item(follow)) by {
            assert forall|i: int| 0 <= i < others.len() implies reads_as(
                #[trigger] others[i],
                items.drop_first()[i],
            ) by {
                assert(others[i] == parts[i + 1]);
            }
            assert forall|i: int| 0 <= i < other_blanks.len() implies (
            #[trigger] other_blanks[i]).len() > 0 && is_blank_run(other_blanks[i]) by {
                assert(other_blanks[i] == blanks[i + 1]);
            }
            lemma_laid_read(
                other_blanks,
                others,
                items.drop_first(),
                closing,
                read.push(items[0]),
                after,
            );
            assert(read.push(items[0]) + items.drop_first() =~= read + items);
        }
        assert(reads_as(part, items[0]));
        lemma_reads(part, items[0], follow);
        let item = part + follow;
        assert(item[0] == part[0]);
        assert(text == blank + item) by {
            assert(text =~= blank + item);
        }
        lemma_blank_run(blank, item);
        assert(follow.len() < item.len());
        assert(text[0] == blank[0]);
    }
}

/// A list of a head and items laid out is read as the list, whatever blanks
/// part the items and stand before the closing parenthesis.
pub proof fn lemma_form_reads(
    head: Seq<char>,
    blanks: Seq<Seq<char>>,
    parts: Seq<Seq<char>>,
    items: Seq<Sexp>,
    closing: Seq<char>,
)
    requires
        forall|i: int| 0 <= i < head.len() ==> !is_delimiter(#[trigger] head[i]),
        blanks.len() == parts.len(),
        parts.len() == items.len(),
        forall|i: int| 0 <= i < blanks.len() ==> (#[trigger] blanks[i]).len() > 0 && is_blank_run(
            blanks[i],
        ),
        forall|i: int| 0 <= i < parts.len() ==> reads_as(#[trigger] parts[i], items[i]),
        is_blank_run(closing),
    ensures
        reads_as(
            seq!['('] + head + laid(blanks, parts) + closing + seq![')'],
            Sexp::List(head, items),
        ),
{
    let form = seq!['('] + head + laid(blanks, parts) + closing + seq![')'];
    assert(form[0] == '(');
    reveal(reads_as);
    assert forall|after: Seq<char>| ends_item(after) implies #[trigger] read_item(form + after)
        == Some((Sexp::List(head, items), after)) by {
        let text = form + after;
        let follow = laid(blanks, parts) + closing + seq![')'] + after;
        assert(text =~= seq!['('] + (head + follow));
        lemma_no_blanks(text);
        assert(text.skip(1) =~= head + follow);
        lemma_laid_read(blanks, parts, items, closing, Seq::empty(), after);
        lemma_bare_len(head, follow);
        assert(text.subrange(1, 1 + head.len() as int) =~= head);
        assert(text.skip(1 + head.len() as int) =~= follow);
        assert(Seq::<Sexp>::empty() + items =~= items);
    }
}

/// Whether a text is a word of the language: a letter or `_`, and letters,
/// digits and `_` after it.
pub open spec fn is_word(name: Seq<char>) -> bool {
    &&& name.len() > 0
    &&& is_word_start(name[0])
    &&& forall|i: int| 0 <= i < name.len() ==> is_word_part(#[trigger] name[i])
}

/// Whether a token, if it is a name, is a word of the language: the scanner
/// yields no other names.
pub open spec fn is_plain(token: TokenView) -> bool {
    token matches TokenView::Identifier(name) ==> is_word(name)
}

/// The characters of an operator, one by one.
pub open spec fn operator_chars(operator: Operator) -> Seq<char> {
    match operator {
        Operator::Plus => seq!['+'],
        Operator::Minus => seq!['-'],
        Operator::Star => seq!['*'],
        Operator::Slash => seq!['/'],
        Operator::Percent => seq!['%'],
        Operator::Amp => seq!['&'],
        Operator::Bar => seq!['|'],
        Operator::Caret => seq!['^'],
        Operator::LShift => seq!['<', '<'],
        Operator::RShift => seq!['>', '>'],
        Operator::Bang => seq!['!'],
        Operator::Tilde => seq!['~'],
        Operator::Equal => seq!['=', '='],
        Operator::NotEqual => seq!['!', '='],
        Operator::Less => seq!['<'],
        Operator::Greater => seq!['>'],
        Operator::LessEq => seq!['<', '='],
        Operator::GreaterEq => seq!['>', '='],
        Operator::Inc => seq!['+', '+'],
        Operator::Dec => seq!['-', '-'],
        Operator::Assign => seq!['='],
        Operator::AssignPlus => seq!['=', '+'],
        Operator::AssignMinus => seq!['=', '-'],
        Operator::AssignStar => seq!['=', '*'],
        Operator::AssignSlash => seq!['=', '/'],
        Operator::AssignPercent => seq!['=', '%'],
        Operator::AssignAmp => seq!['=', '&'],
    }
}

/// The text of an operator holds the characters of the operator.
pub proof fn lemma_operator_chars(operator: Operator)
    ensures
        operator_text(operator) == operator_chars(operator),
{
    reveal_strlit("+");
    reveal_strlit("-");
    reveal_strlit("*");
    reveal_strlit("/");
    reveal_strlit("%");
    reveal_strlit("&");
    reveal_strlit("|");
    reveal_strlit("^");
    reveal_strlit("<<");
    reveal_strlit(">>");
    reveal_strlit("!");
    reveal_strlit("~");
    reveal_strlit("==");
    reveal_strlit("!=");
    reveal_strlit("<");
    reveal_strlit(">");
    reveal_strlit("<=");
    reveal_strlit(">=");
    reveal_strlit("++");
    reveal_strlit("--");
    reveal_strlit("=");
    reveal_strlit("=+");
    reveal_strlit("=-");
    reveal_strlit("=*");
    reveal_strlit("=/");
    reveal_strlit("=%");
    reveal_strlit("=&");
    assert(operator_text(operator) =~= operator_chars(operator));
}

/// The heads of the lists that are headed by no operator, one character by
/// one.
pub proof fn lemma_head_words()
    ensures
        "call"@ == seq!['c', 'a', 'l', 'l'],
        "group"@ == seq!['g', 'r', 'o', 'u', 'p'],
        "get"@ == seq!['g', 'e', 't'],
        "?:"@ == seq!['?', ':'],
        "post"@ == seq!['p', 'o', 's', 't'],
        " post"@ == seq![' ', 'p', 'o', 's', 't'],
{
    reveal_strlit("call");
    reveal_strlit("group");
    reveal_strlit("get");
    reveal_strlit("?:");
    reveal_strlit("post");
    reveal_strlit(" post");
    assert("call"@ =~= seq!['c', 'a', 'l', 'l']);
    assert("group"@ =~= seq!['g', 'r', 'o', 'u', 'p']);
    assert("get"@ =~= seq!['g', 'e', 't']);
    assert("?:"@ =~= seq!['?', ':']);
    assert("post"@ =~= seq!['p', 'o', 's', 't']);
    assert(" post"@ =~= seq![' ', 'p', 'o', 's', 't']);
}

/// The text of a number is not empty, holds no character that ends a word,
/// and starts with a digit or with `-`.
pub proof fn lemma_integer_text(n: int)
    ensures
        integer_text(n).len() > 0,
        forall|i: int| 0 <= i < integer_text(n).len() ==> !is_delimiter(#[trigger] integer_text(n)[i])
            && integer_text(n)[i] != '\'',
        n < 0 ==> integer_text(n)[0] == '-',
        n >= 0 ==> is_digit(integer_text(n)[0], 10),
{
    if n < 0 {
        lemma_decimal_text((-n) as nat);
        let digits = decimal_text((-n) as nat);
        assert forall|i: int| 0 <= i < integer_text(n).len() implies !is_delimiter(
            #[trigger] integer_text(n)[i],
        ) && integer_text(n)[i] != '\'' by {
            if i > 0 {
                assert(integer_text(n)[i] == digits[i - 1]);
                assert(is_digit(digits[i - 1], 10));
            }
        }
    } else {
        lemma_decimal_text(n as nat);
        assert forall|i: int| 0 <= i < integer_text(n).len() implies !is_delimiter(
            #[trigger] integer_text(n)[i],
        ) && integer_text(n)[i] != '\'' by {
            assert(is_digit(integer_text(n)[i], 10));
        }
    }
}

/// What the text of a token is read as: the content of a string literal, and
/// the text itself of any other token.
pub open spec fn token_item(token: TokenView) -> Sexp {
    match token {
        TokenView::StringLiteral(content) => Sexp::Text(content),
        _ => Sexp::Atom(token_text(token)),
    }
}

/// The text of a name that is a word and the text of a literal are read as
/// what the token is read as.
pub proof fn lemma_token_reads(token: TokenView)
    requires
        token matches TokenView::Identifier(name) && is_word(name) || token is Integer
            || token is CharLiteral || token is StringLiteral,
    ensures
        reads_as(token_text(token), token_item(token)),
{
    match token {
        TokenView::Identifier(name) => {
            lemma_atom_reads(name);
        },
        TokenView::Integer(value) => {
            lemma_integer_text(value as int);
            lemma_atom_reads(integer_text(value as int));
        },
        TokenView::CharLiteral(value) => {
            lemma_integer_text(value as int);
            let text = token_text(token);
            let digits = integer_text(value as int);
            assert forall|i: int| 0 <= i < text.len() implies !is_delimiter(#[trigger] text[i]) by {
                if 0 < i < text.len() - 1 {
                    assert(text[i] == digits[i - 1]);
                }
            }
            lemma_atom_reads(text);
        },
        TokenView::StringLiteral(content) => {
            lemma_text_reads(content);
        },
        _ => {},
    }
}

/// What the text of an expression is read as: a name or a literal as its
/// token, and any other node as the list of its head and its operands.
pub open spec fn expr_item(expr: ExprView) -> Sexp
    decreases expr,
{
    match expr {
        ExprView::Assign { lvalue, operator, value } => Sexp::List(
            token_text(operator.token@),
            seq![expr_item(*lvalue), expr_item(*value)],
        ),
        ExprView::Binary { left, operator, right } => Sexp::List(
            token_text(operator.token@),
            seq![expr_item(*left), expr_item(*right)],
        ),
        ExprView::Call { callee, arguments } => Sexp::List(
            "call"@,
            seq![expr_item(*callee)] + expr_items(arguments),
        ),
        ExprView::Grouping { expression } => Sexp::List("group"@, seq![expr_item(*expression)]),
        ExprView::Literal { value } => token_item(value.token@),
        ExprView::Unary { operator, right } => Sexp::List(
            token_text(operator.token@),
            seq![expr_item(*right)],
        ),
        ExprView::Bitwise { left, operator, right } => Sexp::List(
            token_text(operator.token@),
            seq![expr_item(*left), expr_item(*right)],
        ),
        ExprView::Variable { name } => token_item(name.token@),
        ExprView::Get { target, index } => Sexp::List(
            "get"@,
            seq![expr_item(*target), expr_item(*index)],
        ),
        ExprView::Ternary { condition, then_branch, else_branch } => Sexp::List(
            "?:"@,
            seq![expr_item(*condition), expr_item(*then_branch), expr_item(*else_branch)],
        ),
        ExprView::Postfix { left, operator } => Sexp::List(
            token_text(operator.token@),
            seq![Sexp::Atom("post"@), expr_item(*left)],
        ),
    }
}

/// What the texts of a sequence of expressions are read as.
pub open spec fn expr_items(exprs: Seq<ExprView>) -> Seq<Sexp>
    decreases exprs,
{
    if exprs.len() == 0 {
        Seq::empty()
    } else {
        expr_items(exprs.drop_last()).push(expr_item(exprs.last()))
    }
}

/// What a sequence of expressions is read as has one item for each
/// expression, in its place.
pub proof fn lemma_expr_items(exprs: Seq<ExprView>)
    ensures
        expr_items(exprs).len() == exprs.len(),
        forall|i: int| 0 <= i < exprs.len() ==> #[trigger] expr_items(exprs)[i] == expr_item(
            exprs[i],
        ),
    decreases exprs.len(),
{
    if exprs.len() > 0 {
        lemma_expr_items(exprs.drop_last());
    }
}

impl ExprView {
    /// Whether every name in the expression is a word of the language.
    pub open spec fn has_plain_names(self) -> bool
        decreases self,
    {
        match self {
            ExprView::Assign { lvalue, value, .. } => lvalue.has_plain_names()
                && value.has_plain_names(),
            ExprView::Binary { left, right, .. } => left.has_plain_names()
                && right.has_plain_names(),
            ExprView::Call { callee, arguments } => callee.has_plain_names() && forall|i: int|
                0 <= i < arguments.len() ==> (#[trigger] arguments[i]).has_plain_names(),
            ExprView::Grouping { expression } => expression.has_plain_names(),
            ExprView::Literal { .. } => true,
            ExprView::Unary { right, .. } => right.has_plain_names(),
            ExprView::Bitwise { left, right, .. } => left.has_plain_names()
                && right.has_plain_names(),
            ExprView::Variable { name } => is_plain(name.token@),
            ExprView::Get { target, index } => target.has_plain_names()
                && index.has_plain_names(),
            ExprView::Ternary { condition, then_branch, else_branch } => condition.has_plain_names()
                && then_branch.has_plain_names() && else_branch.has_plain_names(),
            ExprView::Postfix { left, .. } => left.has_plain_names(),
        }
    }

    /// Whether the expression is one that the parser builds of what the
    /// scanner yields: it is well formed and its names are words.
    pub open spec fn is_readable(self) -> bool {
        self.well_formed() && self.has_plain_names()
    }
}

/// The text of an operator token holds no character that ends a word.
proof fn lemma_operator_head(token: Token)
    requires
        token is Operator,
    ensures
        forall|i: int| 0 <= i < token_text(token@).len() ==> !is_delimiter(
            #[trigger] token_text(token@)[i],
        ),
{
    lemma_operator_chars(token->Operator_0);
}

/// The text of each of a sequence of expressions is read as its item.
proof fn lemma_exprs_read(exprs: Seq<ExprView>)
    requires
        forall|i: int| 0 <= i < exprs.len() ==> (#[trigger] exprs[i]).is_readable(),
    ensures
        render_exprs(exprs).len() == exprs.len(),
        expr_items(exprs).len() == exprs.len(),
        forall|i: int|
            0 <= i < exprs.len() ==> reads_as(
                #[trigger] render_exprs(exprs)[i],
                expr_items(exprs)[i],
            ),
    decreases exprs, 0nat,
{
    lemma_render_exprs(exprs);
    lemma_expr_items(exprs);
    assert forall|i: int| 0 <= i < exprs.len() implies reads_as(
        #[trigger] render_exprs(exprs)[i],
        expr_items(exprs)[i],
    ) by {
        lemma_expr_reads(exprs[i]);
    }
}

/// The text of an expression is read as the item of the expression,
/// whatever follows it that may follow an item.
pub proof fn lemma_expr_reads(expr: ExprView)
    requires
        expr.is_readable(),
    ensures
        reads_as(render_expr(expr), expr_item(expr)),
    decreases expr, 1nat,
{
    lemma_head_words();
    match expr {
        ExprView::Assign { lvalue: left, operator, value: right }
        | ExprView::Binary { left, operator, right }
        | ExprView::Bitwise { left, operator, right } => {
            lemma_expr_reads(*left);
            lemma_expr_reads(*right);
            lemma_operator_head(operator.token);
            lemma_listed_reads(
                token_text(operator.token@),
                seq![render_expr(*left), render_expr(*right)],
                seq![expr_item(*left), expr_item(*right)],
            );
        },
        ExprView::Call { callee, arguments } => {
            lemma_expr_reads(*callee);
            lemma_exprs_read(arguments);
            lemma_listed_reads(
                "call"@,
                seq![render_expr(*callee)] + render_exprs(arguments),
                seq![expr_item(*callee)] + expr_items(arguments),
            );
        },
        ExprView::Grouping { expression } => {
            lemma_expr_reads(*expression);
            lemma_listed_reads(
                "group"@,
                seq![render_expr(*expression)],
                seq![expr_item(*expression)],
            );
        },
        ExprView::Literal { value } => {
            lemma_token_reads(value.token@);
        },
        ExprView::Unary { operator, right } => {
            lemma_expr_reads(*right);
            lemma_operator_head(operator.token);
            lemma_listed_reads(
                token_text(operator.token@),
                seq![render_expr(*right)],
                seq![expr_item(*right)],
            );
        },
        ExprView::Variable { name } => {
            lemma_token_reads(name.token@);
        },
        ExprView::Get { target, index } => {
            lemma_expr_reads(*target);
            lemma_expr_reads(*index);
            lemma_listed_reads(
                "get"@,
                seq![render_expr(*target), render_expr(*index)],
                seq![expr_item(*target), expr_item(*index)],
            );
        },
        ExprView::Ternary { condition, then_branch, else_branch } => {
            lemma_expr_reads(*condition);
            lemma_expr_reads(*then_branch);
            lemma_expr_reads(*else_branch);
            lemma_listed_reads(
                "?:"@,
                seq![render_expr(*condition), render_expr(*then_branch), render_expr(*else_branch)],
                seq![expr_item(*condition), expr_item(*then_branch), expr_item(*else_branch)],
            );
        },
        ExprView::Postfix { left, operator } => {
            lemma_expr_reads(*left);
            lemma_operator_head(operator.token);
            lemma_atom_reads("post"@);
            let head = token_text(operator.token@);
            let parts = seq!["post"@, render_expr(*left)];
            lemma_listed_reads(head, parts, seq![Sexp::Atom("post"@), expr_item(*left)]);
            assert(parts.drop_last() =~= seq!["post"@]);
            assert(seq!["post"@].drop_last() =~= Seq::<Seq<char>>::empty());
            assert(seq![render_expr(*left)].drop_last() =~= Seq::<Seq<char>>::empty());
            reveal_with_fuel(spaced, 3);
            assert(listed(head + " post"@, seq![render_expr(*left)]) =~= listed(head, parts));
        },
    }
}

/// Reading the text of an expression gives the item of the expression and
/// leaves nothing: for every expression that is well formed and whose names
/// are words.
pub proof fn lemma_rendering_is_read_back(expr: ExprView)
    requires
        expr.is_readable(),
    ensures
        read_item(render_expr(expr)) == Some((expr_item(expr), Seq::<char>::empty())),
{
    lemma_expr_reads(expr);
    lemma_reads(render_expr(expr), expr_item(expr), Seq::empty());
    assert(render_expr(expr) + Seq::<char>::empty() =~= render_expr(expr));
}

/// Whether two tokens are the same but for where they were read.
pub open spec fn same_token(one: SpannedToken, other: SpannedToken) -> bool {
    one.token@ == other.token@
}

impl ExprView {
    /// Whether two expressions have one shape: the same kinds of nodes in the
    /// same places, with the same operators, names and values of literals.
    /// Where the tokens were read does not count.
    pub open spec fn same_shape(self, other: ExprView) -> bool
        decreases self,
    {
        match (self, other) {
            (
                ExprView::Assign { lvalue: l1, operator: o1, value: v1 },
                ExprView::Assign { lvalue: l2, operator: o2, value: v2 },
            ) => same_token(o1, o2) && l1.same_shape(*l2) && v1.same_shape(*v2),
            (
                ExprView::Binary { left: l1, operator: o1, right: r1 },
                ExprView::Binary { left: l2, operator: o2, right: r2 },
            ) => same_token(o1, o2) && l1.same_shape(*l2) && r1.same_shape(*r2),
            (
                ExprView::Bitwise { left: l1, operator: o1, right: r1 },
                ExprView::Bitwise { left: l2, operator: o2, right: r2 },
            ) => same_token(o1, o2) && l1.same_shape(*l2) && r1.same_shape(*r2),
            (
                ExprView::Call { callee: c1, arguments: a1 },
                ExprView::Call { callee: c2, arguments: a2 },
            ) => c1.same_shape(*c2) && a1.len() == a2.len() && forall|i: int|
                0 <= i < a1.len() ==> (#[trigger] a1[i]).same_shape(a2[i]),
            (ExprView::Grouping { expression: e1 }, ExprView::Grouping { expression: e2 }) => {
                e1.same_shape(*e2)
            },
            (ExprView::Literal { value: v1 }, ExprView::Literal { value: v2 }) => same_token(
                v1,
                v2,
            ),
            (
                ExprView::Unary { operator: o1, right: r1 },
                ExprView::Unary { operator: o2, right: r2 },
            ) => same_token(o1, o2) && r1.same_shape(*r2),
            (ExprView::Variable { name: n1 }, ExprView::Variable { name: n2 }) => same_token(
                n1,
                n2,
            ),
            (
                ExprView::Get { target: t1, index: i1 },
                ExprView::Get { target: t2, index: i2 },
            ) => t1.same_shape(*t2) && i1.same_shape(*i2),
            (
                ExprView::Ternary { condition: c1, then_branch: t1, else_branch: e1 },
                ExprView::Ternary { condition: c2, then_branch: t2, else_branch: e2 },
            ) => c1.same_shape(*c2) && t1.same_shape(*t2) && e1.same_shape(*e2),
            (
                ExprView::Postfix { left: l1, operator: o1 },
                ExprView::Postfix { left: l2, operator: o2 },
            ) => same_token(o1, o2) && l1.same_shape(*l2),
            _ => false,
        }
    }
}

/// Two numbers with one text are one number.
pub proof fn lemma_integer_text_one(a: int, b: int)
    requires
        integer_text(a) == integer_text(b),
    ensures
        a == b,
{
    lemma_integer_text(a);
    lemma_integer_text(b);
    if a < 0 {
        assert(b < 0);
        lemma_decimal_text((-a) as nat);
        lemma_decimal_text((-b) as nat);
        assert(integer_text(a).drop_first() =~= decimal_text((-a) as nat));
        assert(integer_text(b).drop_first() =~= decimal_text((-b) as nat));
    } else {
        assert(b >= 0);
        lemma_decimal_text(a as nat);
        lemma_decimal_text(b as nat);
    }
}

/// Two operators with one text are one operator, and no operator has the
/// text of another head.
pub proof fn lemma_operator_text_one(a: Operator, b: Operator)
    ensures
        operator_text(a) == operator_text(b) ==> a == b,
        operator_text(a) != "call"@,
        operator_text(a) != "group"@,
        operator_text(a) != "get"@,
        operator_text(a) != "?:"@,
{
    lemma_operator_chars(a);
    lemma_operator_chars(b);
    lemma_head_words();
    let x = operator_chars(a);
    let y = operator_chars(b);
    if x == y {
        assert(x.len() == y.len());
        assert(x[0] == y[0]);
        if x.len() == 2 {
            assert(x[1] == y[1]);
        }
    }
    assert(x.len() <= 2);
    assert(x[0] != '?');
}

/// Whether a token is a name that is a word, or a literal.
pub open spec fn is_operand(token: TokenView) -> bool {
    token matches TokenView::Identifier(name) && is_word(name) || token is Integer
        || token is CharLiteral || token is StringLiteral
}

/// Two names or literals that are read as one item are one token.
pub proof fn lemma_token_item_one(one: TokenView, other: TokenView)
    requires
        is_operand(one),
        is_operand(other),
        token_item(one) == token_item(other),
    ensures
        one == other,
{
    if one is StringLiteral || other is StringLiteral {
    } else {
        let x = token_text(one);
        let y = token_text(other);
        assert(x == y);
        if one is Integer {
            lemma_integer_text(one->Integer_0 as int);
        }
        if other is Integer {
            lemma_integer_text(other->Integer_0 as int);
        }
        if one is CharLiteral {
            assert(x[0] == '\'');
        }
        if other is CharLiteral {
            assert(y[0] == '\'');
        }
        match (one, other) {
            (TokenView::Integer(a), TokenView::Integer(b)) => {
                lemma_integer_text_one(a as int, b as int);
            },
            (TokenView::CharLiteral(a), TokenView::CharLiteral(b)) => {
                assert(x.subrange(1, x.len() - 1) =~= integer_text(a as int));
                assert(y.subrange(1, y.len() - 1) =~= integer_text(b as int));
                lemma_integer_text_one(a as int, b as int);
            },
            _ => {},
        }
    }
}

/// The token of a name or of a literal in a readable expression is a name
/// that is a word, or a literal.
proof fn lemma_operand_token(expr: ExprView)
    requires
        expr.is_readable(),
        expr is Literal || expr is Variable,
    ensures
        expr matches ExprView::Literal { value } ==> is_operand(value.token@) && !(value.token@
            is Identifier),
        expr matches ExprView::Variable { name } ==> is_operand(name.token@) && name.token@
            is Identifier,
{
}

/// The heads of the lists tell the operators apart, and the operators from
/// the other heads.
proof fn lemma_heads_differ()
    ensures
        forall|a: Operator, b: Operator| #[trigger]
            operator_text(a) == #[trigger] operator_text(b) ==> a == b,
        forall|a: Operator| #[trigger] operator_text(a) != "call"@,
        forall|a: Operator| #[trigger] operator_text(a) != "group"@,
        forall|a: Operator| #[trigger] operator_text(a) != "get"@,
        forall|a: Operator| #[trigger] operator_text(a) != "?:"@,
        "call"@ != "group"@,
        "call"@ != "get"@,
        "call"@ != "?:"@,
        "group"@ != "get"@,
        "group"@ != "?:"@,
        "get"@ != "?:"@,
{
    lemma_head_words();
    assert forall|a: Operator, b: Operator| #[trigger]
        operator_text(a) == #[trigger] operator_text(b) implies a == b by {
        lemma_operator_text_one(a, b);
    }
    assert forall|a: Operator| #[trigger] operator_text(a) != "call"@ by {
        lemma_operator_text_one(a, a);
    }
    assert forall|a: Operator| #[trigger] operator_text(a) != "group"@ by {
        lemma_operator_text_one(a, a);
    }
    assert forall|a: Operator| #[trigger] operator_text(a) != "get"@ by {
        lemma_operator_text_one(a, a);
    }
    assert forall|a: Operator| #[trigger] operator_text(a) != "?:"@ by {
        lemma_operator_text_one(a, a);
    }
    assert("call"@.len() == 4 && "group"@.len() == 5 && "get"@.len() == 3 && "?:"@.len() == 2);
}

/// Two expressions that are read as one item have one shape: for all
/// expressions that are well formed and whose names are words.
pub proof fn lemma_one_item_one_shape(a: ExprView, b: ExprView)
    requires
        a.is_readable(),
        b.is_readable(),
        expr_item(a) == expr_item(b),
    ensures
        a.same_shape(b),
    decreases a,
{
    lemma_heads_differ();
    if a is Literal || a is Variable {
        lemma_operand_token(a);
        if b is Literal || b is Variable {
            lemma_operand_token(b);
            let s = if a is Literal {
                a->Literal_value.token@
            } else {
                a->Variable_name.token@
            };
            let t = if b is Literal {
                b->Literal_value.token@
            } else {
                b->Variable_name.token@
            };
            lemma_token_item_one(s, t);
        }
    } else if b is Literal || b is Variable {
    } else {
        let items_a = expr_item(a)->List_1;
        let items_b = expr_item(b)->List_1;
        match a {
            ExprView::Assign { lvalue: left, operator, value: right }
            | ExprView::Binary { left, operator, right }
            | ExprView::Bitwise { left, operator, right } => {
                assert(items_a.len() == 2);
                assert(items_a[0] == items_b[0] && items_a[1] == items_b[1]);
                match b {
                    ExprView::Assign { lvalue: left_b, value: right_b, .. }
                    | ExprView::Binary { left: left_b, right: right_b, .. }
                    | ExprView::Bitwise { left: left_b, right: right_b, .. } => {
                        lemma_one_item_one_shape(*left, *left_b);
                        lemma_one_item_one_shape(*right, *right_b);
                    },
                    _ => {},
                }
            },
            ExprView::Call { callee, arguments } => {
                match b {
                    ExprView::Call { callee: callee_b, arguments: arguments_b } => {
                        lemma_expr_items(arguments);
                        lemma_expr_items(arguments_b);
                        assert(items_a.len() == items_b.len());
                        assert(items_a[0] == items_b[0]);
                        lemma_one_item_one_shape(*callee, *callee_b);
                        assert forall|i: int| 0 <= i < arguments.len() implies (
                        #[trigger] arguments[i]).same_shape(arguments_b[i]) by {
                            assert(items_a[i + 1] == expr_item(arguments[i]));
                            assert(items_b[i + 1] == expr_item(arguments_b[i]));
                            lemma_one_item_one_shape(arguments[i], arguments_b[i]);
                        }
                    },
                    _ => {},
                }
            },
            ExprView::Grouping { expression } => {
                assert(items_a[0] == items_b[0]);
                match b {
                    ExprView::Grouping { expression: expression_b } => {
                        lemma_one_item_one_shape(*expression, *expression_b);
                    },
                    _ => {},
                }
            },
            ExprView::Unary { operator, right } => {
                assert(items_a.len() == 1);
                assert(items_a[0] == items_b[0]);
                match b {
                    ExprView::Unary { right: right_b, .. } => {
                        lemma_one_item_one_shape(*right, *right_b);
                    },
                    _ => {},
                }
            },
            ExprView::Get { target, index } => {
                assert(items_a[0] == items_b[0] && items_a[1] == items_b[1]);
                match b {
                    ExprView::Get { target: target_b, index: index_b } => {
                        lemma_one_item_one_shape(*target, *target_b);
                        lemma_one_item_one_shape(*index, *index_b);
                    },
                    _ => {},
                }
            },
            ExprView::Ternary { condition, then_branch, else_branch } => {
                assert(items_a[0] == items_b[0] && items_a[1] == items_b[1] && items_a[2]
                    == items_b[2]);
                match b {
                    ExprView::Ternary {
                        condition: condition_b,
                        then_branch: then_b,
                        else_branch: else_b,
                    } => {
                        lemma_one_item_one_shape(*condition, *condition_b);
                        lemma_one_item_one_shape(*then_branch, *then_b);
                        lemma_one_item_one_shape(*else_branch, *else_b);
                    },
                    _ => {},
                }
            },
            ExprView::Postfix { left, operator } => {
                assert(items_a.len() == 2);
                assert(items_a[1] == items_b[1]);
                match b {
                    ExprView::Postfix { left: left_b, .. } => {
                        lemma_one_item_one_shape(*left, *left_b);
                    },
                    _ => {},
                }
            },
            _ => {},
        }
    }
}

/// Two expressions with one text have one shape: for all expressions that
/// are well formed and whose names are words, as the parser builds of what
/// the scanner yields.
pub proof fn lemma_one_text_one_shape(a: ExprView, b: ExprView)
    requires
        a.is_readable(),
        b.is_readable(),
        render_expr(a) == render_expr(b),
    ensures
        a.same_shape(b),
{
    lemma_rendering_is_read_back(a);
    lemma_rendering_is_read_back(b);
    lemma_one_item_one_shape(a, b);
}

} // verus!
