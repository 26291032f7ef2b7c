//! Laws of the scanner: a numeric literal is read with its value and a
//! string literal with its content; what the printer writes for a number or
//! for a string is read back as that number or string; and a string literal
//! or a comment that is never closed yields one error.

use vstd::prelude::*;
use crate::ast::pretty_printer::{
    decimal_text, escaped_char, escaped_text, integer_text, token_text,
};
use crate::common::span::Span;
use crate::ast::reading::is_plain;
use crate::lexer::scanner::{
    blanks_end, comment_end, digits_end, digits_value, is_digit, is_word_part,
    lexeme_from, location_at, next_from, pack_one, packed, quoted_from, scan_from, tokens_from,
    unescape, word_end,
};
use crate::lexer::token::{SpannedTokenView, TokenView};
use crate::lexer::LexErrorView;

verus! {

/// What the scanner yields for a text that is one token from its first
/// character to its last.
pub open spec fn one_token(text: Seq<char>, token: TokenView) -> Seq<
    Result<SpannedTokenView, LexErrorView>,
> {
    seq![
        Ok(
            SpannedTokenView {
                token,
                span: Span { start: location_at(text, 0), end: location_at(text, text.len() as int) },
            },
        ),
    ]
}

/// A run of digits that reaches the end of the text ends there.
proof fn lemma_digits_to_the_end(text: Seq<char>, position: int, radix: int)
    requires
        0 <= position <= text.len(),
        forall|i: int| position <= i < text.len() ==> is_digit(#[trigger] text[i], radix),
    ensures
        digits_end(text, position, radix) == text.len(),
    decreases text.len() - position,
{
    if position < text.len() {
        lemma_digits_to_the_end(text, position + 1, radix);
    }
}

/// A zero before the digits of a number does not change its value.
proof fn lemma_leading_zero(digits: Seq<char>, radix: int)
    ensures
        digits_value(seq!['0'] + digits, radix) == digits_value(digits, radix),
    decreases digits.len(),
{
    if digits.len() == 0 {
        assert(seq!['0'] + digits =~= seq!['0']);
        assert(seq!['0'].drop_last() =~= Seq::<char>::empty());
        reveal_with_fuel(digits_value, 2);
    } else {
        lemma_leading_zero(digits.drop_last(), radix);
        assert((seq!['0'] + digits).drop_last() =~= seq!['0'] + digits.drop_last());
    }
}

/// The text that is a token from its first character to its last yields that
/// token and nothing else.
proof fn lemma_single_lexeme(text: Seq<char>, token: TokenView)
    requires
        text.len() > 0,
        blanks_end(text, 0) == Some(0int),
        lexeme_from(text, 0) == (Ok::<TokenView, LexErrorView>(token), text.len() as int),
    ensures
        scan_from(text, 0) == one_token(text, token),
{
    assert(next_from(text, text.len() as int) is None);
    assert(scan_from(text, text.len() as int) =~= Seq::empty());
    assert(scan_from(text, 0) =~= one_token(text, token));
}

/// Scanning a decimal literal yields one integer token with the value of the
/// literal: for every text of decimal digits that does not start with `0` and
/// whose value is at most `i64::MAX`.
pub proof fn lemma_scan_decimal(text: Seq<char>)
    requires
        text.len() > 0,
        forall|i: int| 0 <= i < text.len() ==> is_digit(#[trigger] text[i], 10),
        text[0] != '0',
        digits_value(text, 10) <= i64::MAX,
    ensures
        scan_from(text, 0) == one_token(text, TokenView::Integer(digits_value(text, 10) as i64)),
{
    lemma_digits_to_the_end(text, 1, 10);
    assert(text.subrange(0, text.len() as int) =~= text);
    assert(is_digit(text[0], 10));
    lemma_single_lexeme(text, TokenView::Integer(digits_value(text, 10) as i64));
}

/// Scanning an octal literal yields one integer token whose value is that of
/// the digits after the leading `0`, read in base eight: for every text of a
/// `0` and octal digits whose value is at most `i64::MAX`.
pub proof fn lemma_scan_octal(digits: Seq<char>)
    requires
        forall|i: int| 0 <= i < digits.len() ==> is_digit(#[trigger] digits[i], 8),
        digits_value(digits, 8) <= i64::MAX,
    ensures
        scan_from(seq!['0'] + digits, 0) == one_token(
            seq!['0'] + digits,
            TokenView::Integer(digits_value(digits, 8) as i64),
        ),
{
    let text = seq!['0'] + digits;
    assert forall|i: int| 1 <= i < text.len() implies is_digit(#[trigger] text[i], 8) by {
        assert(text[i] == digits[i - 1]);
    }
    lemma_digits_to_the_end(text, 1, 8);
    lemma_leading_zero(digits, 8);
    assert(text.subrange(0, text.len() as int) =~= text);
    assert(is_digit(text[0], 10));
    lemma_single_lexeme(text, TokenView::Integer(digits_value(digits, 8) as i64));
}

/// The characters of a string literal without escapes are read as they
/// stand, up to the closing quote.
proof fn lemma_plain_content(text: Seq<char>, content: Seq<char>, position: int)
    requires
        text == seq!['"'] + content + seq!['"'],
        forall|i: int| 0 <= i < content.len() ==> #[trigger] content[i] != '"' && content[i] != '*',
        1 <= position <= content.len() + 1,
    ensures
        quoted_from(text, position, '"', content.take(position - 1)) == Some(
            (content, text.len() as int),
        ),
    decreases text.len() - position,
{
    if position == content.len() + 1 {
        assert(content.take(position - 1) =~= content);
    } else {
        assert(text[position] == content[position - 1]);
        assert(content.take(position - 1).push(content[position - 1]) =~= content.take(position));
        lemma_plain_content(text, content, position + 1);
    }
}

/// Scanning a string literal without escapes yields one string token with
/// the characters between the quotes: for every content that holds neither
/// `"` nor `*`, printable or not.
pub proof fn lemma_scan_plain_string(content: Seq<char>)
    requires
        forall|i: int| 0 <= i < content.len() ==> #[trigger] content[i] != '"' && content[i] != '*',
    ensures
        scan_from(seq!['"'] + content + seq!['"'], 0) == one_token(
            seq!['"'] + content + seq!['"'],
            TokenView::StringLiteral(content),
        ),
{
    let text = seq!['"'] + content + seq!['"'];
    lemma_plain_content(text, content, 1);
    assert(content.take(0) =~= Seq::<char>::empty());
    lemma_single_lexeme(text, TokenView::StringLiteral(content));
}

/// The decimal digits of a number are digits, start with no `0` unless the
/// number is zero, and denote the number.
pub proof fn lemma_decimal_text(n: nat)
    ensures
        decimal_text(n).len() > 0,
        forall|i: int| 0 <= i < decimal_text(n).len() ==> is_digit(#[trigger] decimal_text(n)[i], 10),
        n > 0 ==> decimal_text(n)[0] != '0',
        digits_value(decimal_text(n), 10) == n,
    decreases n,
{
    if n < 10 {
        assert(decimal_text(n).drop_last() =~= Seq::<char>::empty());
        reveal_with_fuel(digits_value, 2);
    } else {
        lemma_decimal_text(n / 10);
        assert(decimal_text(n).drop_last() =~= decimal_text(n / 10));
    }
}

/// Scanning the decimal text of a number yields one integer token with that
/// number: for every number from zero to `i64::MAX`.
pub proof fn lemma_scan_integer_text(n: i64)
    requires
        n >= 0,
    ensures
        scan_from(integer_text(n as int), 0) == one_token(
            integer_text(n as int),
            TokenView::Integer(n),
        ),
{
    let text = integer_text(n as int);
    lemma_decimal_text(n as nat);
    if n == 0 {
        assert(text =~= seq!['0'] + Seq::<char>::empty());
        lemma_scan_octal(Seq::empty());
    } else {
        lemma_scan_decimal(text);
    }
}

/// The characters that stand for a text start with those that stand for its
/// first character.
proof fn lemma_escaped_first(c: char, rest: Seq<char>)
    ensures
        escaped_text(seq![c] + rest) == escaped_char(c) + escaped_text(rest),
    decreases rest.len(),
{
    if rest.len() == 0 {
        assert(seq![c] + rest =~= seq![c]);
        assert(seq![c].drop_last() =~= Seq::<char>::empty());
        reveal_with_fuel(escaped_text, 2);
        assert(escaped_text(seq![c]) =~= escaped_char(c) + escaped_text(rest));
    } else {
        lemma_escaped_first(c, rest.drop_last());
        assert((seq![c] + rest).drop_last() =~= seq![c] + rest.drop_last());
        assert(escaped_text(seq![c] + rest) =~= escaped_char(c) + escaped_text(rest));
    }
}

/// What stands for a text between quotes is read back as that text,
/// whatever follows the closing quote: the escapes are resolved to the
/// characters they stand for.
pub proof fn lemma_quoted_escaped(
    text: Seq<char>,
    before: Seq<char>,
    rest: Seq<char>,
    after: Seq<char>,
    read: Seq<char>,
)
    requires
        text == before + escaped_text(rest) + seq!['"'] + after,
    ensures
        quoted_from(text, before.len() as int, '"', read) == Some(
            (read + rest, (before.len() + escaped_text(rest).len() + 1) as int),
        ),
    decreases rest.len(),
{
    let position = before.len() as int;
    if rest.len() == 0 {
        assert(text[position] == '"');
        assert(read + rest =~= read);
    } else {
        let c = rest[0];
        let others = rest.drop_first();
        assert(rest =~= seq![c] + others);
        lemma_escaped_first(c, others);
        let longer = before + escaped_char(c);
        assert(text =~= longer + escaped_text(others) + seq!['"'] + after);
        lemma_quoted_escaped(text, longer, others, after, read.push(c));
        assert(read.push(c) + others =~= read + rest);
        assert(text[position] == escaped_char(c)[0]);
        if escaped_char(c).len() == 2 {
            assert(text[position + 1] == escaped_char(c)[1]);
            assert(unescape(escaped_char(c)[1]) == c);
        }
    }
}

/// Scanning the text of a string literal yields one string token with the
/// content of the literal, whatever characters the content holds: escaping a
/// text and scanning it gives the text back.
pub proof fn lemma_scan_string_text(content: Seq<char>)
    ensures
        scan_from(token_text(TokenView::StringLiteral(content)), 0) == one_token(
            token_text(TokenView::StringLiteral(content)),
            TokenView::StringLiteral(content),
        ),
{
    let text = token_text(TokenView::StringLiteral(content));
    assert(text =~= seq!['"'] + escaped_text(content) + seq!['"'] + Seq::<char>::empty());
    lemma_quoted_escaped(text, seq!['"'], content, Seq::empty(), Seq::empty());
    assert(Seq::<char>::empty() + content =~= content);
    lemma_single_lexeme(text, TokenView::StringLiteral(content));
}

/// A quoted literal without its closing quote reaches the end of the text.
proof fn lemma_never_closed(text: Seq<char>, position: int, quote: char, read: Seq<char>)
    requires
        0 <= position,
        forall|i: int| position <= i < text.len() ==> #[trigger] text[i] != quote,
    ensures
        quoted_from(text, position, quote, read) is None,
    decreases text.len() - position,
{
    if position < text.len() {
        if text[position] == '*' {
            if position + 1 < text.len() {
                lemma_never_closed(text, position + 2, quote, read.push(unescape(text[position + 1])));
            }
        } else {
            lemma_never_closed(text, position + 1, quote, read.push(text[position]));
        }
    }
}

/// Scanning a string literal that is never closed yields one error,
/// `UnterminatedString`, at the end of the text: for every content without a
/// `"`.
pub proof fn lemma_scan_unterminated_string(content: Seq<char>)
    requires
        forall|i: int| 0 <= i < content.len() ==> #[trigger] content[i] != '"',
    ensures
        scan_from(seq!['"'] + content, 0) == seq![
            Err::<SpannedTokenView, LexErrorView>(
                LexErrorView::UnterminatedString(
                    location_at(seq!['"'] + content, (content.len() + 1) as int),
                ),
            ),
        ],
{
    let text = seq!['"'] + content;
    assert forall|i: int| 1 <= i < text.len() implies #[trigger] text[i] != '"' by {
        assert(text[i] == content[i - 1]);
    }
    lemma_never_closed(text, 1, '"', Seq::empty());
    assert(next_from(text, text.len() as int) is None);
    assert(scan_from(text, text.len() as int) =~= Seq::empty());
    assert(scan_from(text, 0) =~= seq![
        Err::<SpannedTokenView, LexErrorView>(
            LexErrorView::UnterminatedString(location_at(text, (content.len() + 1) as int)),
        ),
    ]);
}

/// A comment without `*/` in it reaches the end of the text.
proof fn lemma_comment_never_closed(text: Seq<char>, position: int)
    requires
        0 <= position,
        forall|i: int|
            position <= i && i + 1 < text.len() ==> !(#[trigger] text[i] == '*' && text[i + 1]
                == '/'),
    ensures
        comment_end(text, position) is None,
    decreases text.len() - position,
{
    if position < text.len() {
        assert(!(text[position] == '*' && position + 1 < text.len() && text[position + 1] == '/'));
        lemma_comment_never_closed(text, position + 1);
    }
}

/// Scanning a comment that is never closed yields one error,
/// `UnterminatedComment`, at the end of the text: for every body without
/// `*/`.
pub proof fn lemma_scan_unterminated_comment(body: Seq<char>)
    requires
        forall|i: int|
            0 <= i && i + 1 < body.len() ==> !(#[trigger] body[i] == '*' && body[i + 1] == '/'),
    ensures
        scan_from(seq!['/', '*'] + body, 0) == seq![
            Err::<SpannedTokenView, LexErrorView>(
                LexErrorView::UnterminatedComment(
                    location_at(seq!['/', '*'] + body, (body.len() + 2) as int),
                ),
            ),
        ],
{
    let text = seq!['/', '*'] + body;
    assert forall|i: int| 2 <= i && i + 1 < text.len() implies !(#[trigger] text[i] == '*'
        && text[i + 1] == '/') by {
        assert(text[i] == body[i - 2]);
        assert(text[i + 1] == body[i - 1]);
    }
    lemma_comment_never_closed(text, 2);
    assert(blanks_end(text, 0) is None);
    assert(next_from(text, text.len() as int) is None);
    assert(scan_from(text, text.len() as int) =~= Seq::empty());
    assert(scan_from(text, 0) =~= seq![
        Err::<SpannedTokenView, LexErrorView>(
            LexErrorView::UnterminatedComment(location_at(text, (body.len() + 2) as int)),
        ),
    ]);
}

/// The value of a character literal of one character is the code of the
/// character, and that of a literal of two is the code of the first, moved
/// up by eight bits, with the code of the second laid over it.
pub proof fn lemma_packed_characters(first: char, second: char)
    ensures
        packed(Seq::empty()) == 0,
        packed(seq![first]) == first as i64,
        packed(seq![first, second]) == ((first as i64) << 8) | (second as i64),
{
    let code = first as i64;
    assert((0i64 << 8) | code == code) by (bit_vector);
    assert(pack_one(0, first) == first as i64);
}

/// Whether every name among tokens is a word of the language.
pub open spec fn plain_views(tokens: Seq<SpannedTokenView>) -> bool {
    forall|i: int| 0 <= i < tokens.len() ==> is_plain((#[trigger] tokens[i]).token)
}

/// The longest run of word characters holds word characters only, and ends
/// within the text.
proof fn lemma_word_end(text: Seq<char>, position: int)
    requires
        0 <= position <= text.len(),
    ensures
        position <= word_end(text, position) <= text.len(),
        forall|i: int|
            position <= i < word_end(text, position) ==> is_word_part(#[trigger] text[i]),
    decreases text.len() - position,
{
    if position < text.len() && is_word_part(text[position]) {
        lemma_word_end(text, position + 1);
        assert forall|i: int| position <= i < word_end(text, position) implies is_word_part(
            #[trigger] text[i],
        ) by {
            if i > position {
                assert(position + 1 <= i < word_end(text, position + 1));
                assert(is_word_part(text[i]));
            }
        }
    }
}

/// A name that the scanner yields is a word of the language.
pub proof fn lemma_scanned_name(text: Seq<char>, position: int)
    ensures
        next_from(text, position) matches Some((Ok(token), _)) ==> is_plain(token.token),
{
    match blanks_end(text, position) {
        Some(start) => {
            if 0 <= start < text.len() && crate::lexer::scanner::is_word_start(text[start]) {
                lemma_word_end(text, start + 1);
                let end = word_end(text, start + 1);
                let word = text.subrange(start, end);
                assert(start < end <= text.len());
                assert forall|i: int| 0 <= i < word.len() implies is_word_part(#[trigger] word[i]) by {
                    if i > 0 {
                        assert(start + 1 <= start + i < end);
                        assert(is_word_part(text[start + i]));
                    }
                }
            }
        },
        None => {},
    }
}

/// The names among the tokens of a source are words of the language.
pub proof fn lemma_scanned_names(text: Seq<char>, position: int)
    ensures
        tokens_from(text, position) matches Ok(tokens) ==> plain_views(tokens),
    decreases text.len() - position,
{
    lemma_scanned_name(text, position);
    match next_from(text, position) {
        Some((Ok(token), end)) => {
            if position < end <= text.len() {
                lemma_scanned_names(text, end);
                match tokens_from(text, end) {
                    Ok(rest) => {
                        let all = seq![token] + rest;
                        assert forall|i: int| 0 <= i < all.len() implies is_plain(
                            (#[trigger] all[i]).token,
                        ) by {
                            if i > 0 {
                                assert(all[i] == rest[i - 1]);
                            }
                        }
                    },
                    Err(_) => {},
                }
            }
        },
        _ => {},
    }
}

} // verus!
