//! The scanner: one forward pass over the characters of the source.

use vstd::prelude::*;
use vstd::string::StrSliceExecFns;
use crate::common::span::{Location, Span};
use crate::lexer::token::{
    Delimiter, Keyword, Operator, SpannedToken, SpannedTokenView, Token, TokenView,
};
use crate::lexer::{LexError, LexErrorView};

verus! {

/// Whether a character is alphabetic or numeric in the sense of Unicode.
pub uninterp spec fn unicode_alphanumeric(c: char) -> bool;

/// `char::is_alphanumeric` tells whether a character is alphabetic or numeric
/// in the sense of Unicode. The answer depends on the character alone; which
/// characters those are is laid down in the tables of Unicode and is not
/// stated here.
pub assume_specification[ char::is_alphanumeric ](c: char) -> (b: bool)
    ensures
        b == unicode_alphanumeric(c),
;

/// `String::push` appends one character to the end of the string.
pub assume_specification[ String::push ](s: &mut String, ch: char)
    ensures
        final(s)@ == old(s)@.push(ch),
;

/// The number of bytes that a character takes in UTF-8.
pub open spec fn utf8_width(c: char) -> int {
    if (c as u32) < 0x80 {
        1
    } else if (c as u32) < 0x800 {
        2
    } else if (c as u32) < 0x10000 {
        3
    } else {
        4
    }
}

/// The byte offset of the character at `position` of the text.
pub open spec fn offset_at(text: Seq<char>, position: int) -> int
    decreases position,
{
    if position <= 0 {
        0
    } else {
        offset_at(text, position - 1) + utf8_width(text[position - 1])
    }
}

/// The line of the character at `position` of the text: one more than the
/// number of line feeds before it.
pub open spec fn line_at(text: Seq<char>, position: int) -> int
    decreases position,
{
    if position <= 0 {
        1
    } else if text[position - 1] == '\n' {
        line_at(text, position - 1) + 1
    } else {
        line_at(text, position - 1)
    }
}

/// The column of the character at `position` of the text: one more than the
/// number of characters between it and the last line feed before it.
pub open spec fn column_at(text: Seq<char>, position: int) -> int
    decreases position,
{
    if position <= 0 {
        1
    } else if text[position - 1] == '\n' {
        1
    } else {
        column_at(text, position - 1) + 1
    }
}

/// The location of the character at `position` of the text, and of the end of
/// the text where `position` is its length.
pub open spec fn location_at(text: Seq<char>, position: int) -> Location {
    Location {
        offset: offset_at(text, position) as usize,
        line: line_at(text, position) as usize,
        column: column_at(text, position) as usize,
    }
}

/// Whether the locations of a text fit the machine: no offset, line or column
/// in it exceeds `usize::MAX`.
pub open spec fn text_fits(text: Seq<char>) -> bool {
    4 * text.len() < usize::MAX
}

/// The offset, line and column of a position are within these bounds.
pub proof fn lemma_location_bounds(text: Seq<char>, position: int)
    requires
        0 <= position,
    ensures
        0 <= offset_at(text, position) <= 4 * position,
        1 <= line_at(text, position) <= 1 + position,
        1 <= column_at(text, position) <= 1 + position,
    decreases position,
{
    if position > 0 {
        lemma_location_bounds(text, position - 1);
    }
}

/// Whether a character is skipped between tokens.
pub open spec fn is_blank(c: char) -> bool {
    c == ' ' || c == '\t' || c == '\n' || c == '\r'
}

/// The position after the `*/` that closes a comment whose body starts at
/// `position`; nothing where the text ends first.
pub open spec fn comment_end(text: Seq<char>, position: int) -> Option<int>
    decreases text.len() - position,
{
    if position < 0 || position >= text.len() {
        None
    } else if text[position] == '*' && position + 1 < text.len() && text[position + 1] == '/' {
        Some(position + 2)
    } else {
        comment_end(text, position + 1)
    }
}

/// The position of the first character from `position` on that is neither
/// blank nor part of a comment, or the length of the text where there is
/// none; nothing where a comment is not closed.
pub open spec fn blanks_end(text: Seq<char>, position: int) -> Option<int>
    decreases text.len() - position,
{
    if position < 0 || position >= text.len() {
        Some(position)
    } else if is_blank(text[position]) {
        blanks_end(text, position + 1)
    } else if text[position] == '/' && position + 1 < text.len() && text[position + 1] == '*' {
        match comment_end(text, position + 2) {
            Some(end) => if position < end <= text.len() {
                blanks_end(text, end)
            } else {
                None
            },
            None => None,
        }
    } else {
        Some(position)
    }
}

/// The delimiter that a character is.
pub open spec fn delimiter_of(c: char) -> Option<Delimiter> {
    if c == '(' {
        Some(Delimiter::LParen)
    } else if c == ')' {
        Some(Delimiter::RParen)
    } else if c == '[' {
        Some(Delimiter::LBrack)
    } else if c == ']' {
        Some(Delimiter::RBrack)
    } else if c == '{' {
        Some(Delimiter::LBrace)
    } else if c == '}' {
        Some(Delimiter::RBrace)
    } else if c == ',' {
        Some(Delimiter::Comma)
    } else if c == ';' {
        Some(Delimiter::Semicolon)
    } else if c == ':' {
        Some(Delimiter::Colon)
    } else if c == '?' {
        Some(Delimiter::QMark)
    } else {
        None
    }
}

/// Whether a character is a digit of the radix, for a radix up to ten.
pub open spec fn is_digit(c: char, radix: int) -> bool {
    '0' <= c && (c as int) < ('0' as int) + radix
}

/// The end of the longest run of digits of the radix that starts at
/// `position`.
pub open spec fn digits_end(text: Seq<char>, position: int, radix: int) -> int
    decreases text.len() - position,
{
    if 0 <= position < text.len() && is_digit(text[position], radix) {
        digits_end(text, position + 1, radix)
    } else {
        position
    }
}

/// The number that a sequence of digits denotes in the radix.
pub open spec fn digits_value(digits: Seq<char>, radix: int) -> int
    decreases digits.len(),
{
    if digits.len() == 0 {
        0
    } else {
        digits_value(digits.drop_last(), radix) * radix + (digits.last() as int - '0' as int)
    }
}

/// The radix of a numeric literal, which its first digit selects: a leading
/// `0` selects eight.
pub open spec fn radix_of(first: char) -> int {
    if first == '0' {
        8
    } else {
        10
    }
}

/// The numeric literal that starts at `start`: the longest run of digits of
/// its radix. Its value is that of all its digits in that radix; where that
/// exceeds `i64::MAX`, the literal is invalid.
pub open spec fn number_from(text: Seq<char>, start: int) -> (Result<TokenView, LexErrorView>, int) {
    let radix = radix_of(text[start]);
    let end = digits_end(text, start + 1, radix);
    let digits = text.subrange(start, end);
    let value = digits_value(digits, radix);
    if value <= i64::MAX {
        (Ok(TokenView::Integer(value as i64)), end)
    } else {
        (Err(LexErrorView::InvalidNumber(digits, location_at(text, end))), end)
    }
}

/// Whether a character may start a word: a letter of ASCII or `_`.
pub open spec fn is_word_start(c: char) -> bool {
    ('a' <= c && c <= 'z') || ('A' <= c && c <= 'Z') || c == '_'
}

/// Whether a character may continue a word: a letter or digit, or `_`.
pub open spec fn is_word_part(c: char) -> bool {
    ('a' <= c && c <= 'z') || ('A' <= c && c <= 'Z') || ('0' <= c && c <= '9') || c == '_' || (c
        > '\x7f' && unicode_alphanumeric(c))
}

/// The end of the longest run of word characters that starts at `position`.
pub open spec fn word_end(text: Seq<char>, position: int) -> int
    decreases text.len() - position,
{
    if 0 <= position < text.len() && is_word_part(text[position]) {
        word_end(text, position + 1)
    } else {
        position
    }
}

/// The keyword that a word is.
pub open spec fn keyword_of(word: Seq<char>) -> Option<Keyword> {
    if word == "auto"@ {
        Some(Keyword::Auto)
    } else if word == "extrn"@ {
        Some(Keyword::Extrn)
    } else if word == "if"@ {
        Some(Keyword::If)
    } else if word == "else"@ {
        Some(Keyword::Else)
    } else if word == "while"@ {
        Some(Keyword::While)
    } else if word == "switch"@ {
        Some(Keyword::Switch)
    } else if word == "case"@ {
        Some(Keyword::Case)
    } else if word == "default"@ {
        Some(Keyword::Default)
    } else if word == "return"@ {
        Some(Keyword::Return)
    } else if word == "goto"@ {
        Some(Keyword::Goto)
    } else {
        None
    }
}

/// The word that starts at `start`: a keyword, or else an identifier.
pub open spec fn word_from(text: Seq<char>, start: int) -> (Result<TokenView, LexErrorView>, int) {
    let end = word_end(text, start + 1);
    let word = text.subrange(start, end);
    match keyword_of(word) {
        Some(keyword) => (Ok(TokenView::Keyword(keyword)), end),
        None => (Ok(TokenView::Identifier(word)), end),
    }
}

/// The character that stands for the character after the escape character
/// `*`: `*n` is a line feed, `*t` a tab, `*0` the null character, and any
/// other character stands for itself.
pub open spec fn unescape(c: char) -> char {
    if c == 'n' {
        '\n'
    } else if c == 't' {
        '\t'
    } else if c == '0' {
        '\0'
    } else {
        c
    }
}

/// The rest of a quoted literal from `position` on, after the characters in
/// `read`: its characters up to the closing `quote`, with the escapes
/// resolved, and the position after that quote; nothing where the text ends
/// first.
pub open spec fn quoted_from(text: Seq<char>, position: int, quote: char, read: Seq<char>) -> Option<
    (Seq<char>, int),
>
    decreases text.len() - position,
{
    if position < 0 || position >= text.len() {
        None
    } else if text[position] == quote {
        Some((read, position + 1))
    } else if text[position] == '*' {
        if position + 1 >= text.len() {
            None
        } else {
            quoted_from(text, position + 2, quote, read.push(unescape(text[position + 1])))
        }
    } else {
        quoted_from(text, position + 1, quote, read.push(text[position]))
    }
}

/// A value with one more character packed into it: the value moves up by
/// eight bits and the character's code is laid over it.
pub open spec fn pack_one(value: i64, c: char) -> i64 {
    (value << 8) | (c as i64)
}

/// The value of a character literal: its first two characters packed, the
/// first above the second. One character gives its code, none gives zero, and
/// those after the second do not count.
pub open spec fn packed(chars: Seq<char>) -> i64 {
    if chars.len() == 0 {
        0
    } else if chars.len() == 1 {
        pack_one(0, chars[0])
    } else {
        pack_one(pack_one(0, chars[0]), chars[1])
    }
}

/// The string literal whose opening quote is at `start`.
pub open spec fn string_from(text: Seq<char>, start: int) -> (Result<TokenView, LexErrorView>, int) {
    match quoted_from(text, start + 1, '"', Seq::empty()) {
        Some((content, end)) => (Ok(TokenView::StringLiteral(content)), end),
        None => (
            Err(LexErrorView::UnterminatedString(location_at(text, text.len() as int))),
            text.len() as int,
        ),
    }
}

/// The character literal whose opening quote is at `start`.
pub open spec fn character_from(text: Seq<char>, start: int) -> (
    Result<TokenView, LexErrorView>,
    int,
) {
    match quoted_from(text, start + 1, '\'', Seq::empty()) {
        Some((chars, end)) => (Ok(TokenView::CharLiteral(packed(chars))), end),
        None => (
            Err(LexErrorView::UnterminatedChar(location_at(text, text.len() as int))),
            text.len() as int,
        ),
    }
}

/// The operator that starts at `start`, and its length. An operator of two
/// characters is preferred to the one that its first character is.
pub open spec fn operator_from(text: Seq<char>, start: int) -> Option<(Operator, int)> {
    let c = text[start];
    let after = if start + 1 < text.len() {
        Some(text[start + 1])
    } else {
        None
    };
    if c == '=' {
        if after == Some('=') {
            Some((Operator::Equal, 2))
        } else if after == Some('+') {
            Some((Operator::AssignPlus, 2))
        } else if after == Some('-') {
            Some((Operator::AssignMinus, 2))
        } else if after == Some('*') {
            Some((Operator::AssignStar, 2))
        } else if after == Some('/') {
            Some((Operator::AssignSlash, 2))
        } else if after == Some('%') {
            Some((Operator::AssignPercent, 2))
        } else if after == Some('&') {
            Some((Operator::AssignAmp, 2))
        } else {
            Some((Operator::Assign, 1))
        }
    } else if c == '+' {
        if after == Some('+') {
            Some((Operator::Inc, 2))
        } else {
            Some((Operator::Plus, 1))
        }
    } else if c == '-' {
        if after == Some('-') {
            Some((Operator::Dec, 2))
        } else {
            Some((Operator::Minus, 1))
        }
    } else if c == '*' {
        Some((Operator::Star, 1))
    } else if c == '/' {
        Some((Operator::Slash, 1))
    } else if c == '%' {
        Some((Operator::Percent, 1))
    } else if c == '|' {
        Some((Operator::Bar, 1))
    } else if c == '^' {
        Some((Operator::Caret, 1))
    } else if c == '!' {
        Some((Operator::Bang, 1))
    } else if c == '~' {
        Some((Operator::Tilde, 1))
    } else if c == '&' {
        Some((Operator::Amp, 1))
    } else if c == '>' {
        if after == Some('>') {
            Some((Operator::RShift, 2))
        } else if after == Some('=') {
            Some((Operator::GreaterEq, 2))
        } else {
            Some((Operator::Greater, 1))
        }
    } else if c == '<' {
        if after == Some('<') {
            Some((Operator::LShift, 2))
        } else if after == Some('=') {
            Some((Operator::LessEq, 2))
        } else {
            Some((Operator::Less, 1))
        }
    } else {
        None
    }
}

/// The token or the error that the characters from `start` on give, and the
/// position after the characters consumed for it. `start` is a position of
/// the text.
pub open spec fn lexeme_from(text: Seq<char>, start: int) -> (Result<TokenView, LexErrorView>, int) {
    let c = text[start];
    if delimiter_of(c) is Some {
        (Ok(TokenView::Delimiter(delimiter_of(c)->0)), start + 1)
    } else if is_digit(c, 10) {
        number_from(text, start)
    } else if is_word_start(c) {
        word_from(text, start)
    } else if c == '"' {
        string_from(text, start)
    } else if c == '\'' {
        character_from(text, start)
    } else {
        match operator_from(text, start) {
            Some((operator, length)) => (Ok(TokenView::Operator(operator)), start + length),
            None => (
                Err(LexErrorView::UnexpectedChar(c, location_at(text, start + 1))),
                start + 1,
            ),
        }
    }
}

/// What the scanner yields next from `position`, and the position after it;
/// nothing where only blanks and comments are left. A token has the span from
/// its first character to just after its last.
pub open spec fn next_from(text: Seq<char>, position: int) -> Option<
    (Result<SpannedTokenView, LexErrorView>, int),
> {
    match blanks_end(text, position) {
        None => Some(
            (
                Err(LexErrorView::UnterminatedComment(location_at(text, text.len() as int))),
                text.len() as int,
            ),
        ),
        Some(start) => if 0 <= start < text.len() {
            let (lexeme, end) = lexeme_from(text, start);
            Some(
                (
                    match lexeme {
                        Ok(token) => Ok(
                            SpannedTokenView {
                                token,
                                span: Span {
                                    start: location_at(text, start),
                                    end: location_at(text, end),
                                },
                            },
                        ),
                        Err(error) => Err(error),
                    },
                    end,
                ),
            )
        } else {
            None
        },
    }
}

/// Everything the scanner yields from `position` to the end of the text, in
/// order. An error takes the place of a token and does not end the sequence.
pub open spec fn scan_from(text: Seq<char>, position: int) -> Seq<
    Result<SpannedTokenView, LexErrorView>,
>
    decreases text.len() - position,
{
    match next_from(text, position) {
        Some((item, end)) => if position < end <= text.len() {
            seq![item] + scan_from(text, end)
        } else {
            seq![item]
        },
        None => Seq::empty(),
    }
}

/// The view of what the scanner yields.
pub open spec fn item_view(item: Result<SpannedToken, LexError>) -> Result<
    SpannedTokenView,
    LexErrorView,
> {
    match item {
        Ok(token) => Ok(token@),
        Err(error) => Err(error@),
    }
}

/// The views of a sequence of what the scanner yields.
pub open spec fn item_views(items: Seq<Result<SpannedToken, LexError>>) -> Seq<
    Result<SpannedTokenView, LexErrorView>,
> {
    Seq::new(items.len(), |i: int| item_view(items[i]))
}

/// The views of a sequence of tokens.
pub open spec fn token_views(tokens: Seq<SpannedToken>) -> Seq<SpannedTokenView> {
    Seq::new(tokens.len(), |i: int| tokens[i]@)
}

/// The tokens `read` before what the rest of a source gives.
pub open spec fn after_tokens(
    read: Seq<SpannedTokenView>,
    rest: Result<Seq<SpannedTokenView>, LexErrorView>,
) -> Result<Seq<SpannedTokenView>, LexErrorView> {
    match rest {
        Ok(tokens) => Ok(read + tokens),
        Err(error) => Err(error),
    }
}

/// The tokens that the scanner yields from `position` to the end of the text,
/// or the first error that it yields.
pub open spec fn tokens_from(text: Seq<char>, position: int) -> Result<
    Seq<SpannedTokenView>,
    LexErrorView,
>
    decreases text.len() - position,
{
    match next_from(text, position) {
        Some((Ok(token), end)) => if position < end <= text.len() {
            after_tokens(seq![token], tokens_from(text, end))
        } else {
            Ok(seq![token])
        },
        Some((Err(error), _)) => Err(error),
        None => Ok(Seq::empty()),
    }
}

/// A scanner over the characters of a source text.
pub struct Scanner {
    chars: Vec<char>,
    position: usize,
    current_loc: Location,
}

/// Whether a scanner that returned `result` for a token and stands at
/// `cursor` did what `rule` says: the token or error and the position after
/// it.
pub open spec fn lexed(
    result: Result<Token, LexError>,
    cursor: int,
    rule: (Result<TokenView, LexErrorView>, int),
) -> bool {
    cursor == rule.1 && match rule.0 {
        Ok(token) => result matches Ok(found) && found@ == token,
        Err(error) => result matches Err(found) && found@ == error,
    }
}

/// Greater numbers of more digits: a number that exceeds a bound still does
/// so with one more digit after it.
proof fn lemma_more_digits(value: int, radix: int, digit: int, bound: int)
    requires
        value > bound,
        bound >= 0,
        radix >= 1,
        digit >= 0,
    ensures
        value * radix + digit > bound,
{
    assert(value * radix >= value) by (nonlinear_arith)
        requires
            value >= 0,
            radix >= 1,
    ;
}

/// The number of bytes that a character takes in UTF-8.
fn utf8_length(c: char) -> (n: usize)
    ensures
        n == utf8_width(c),
{
    let code = c as u32;
    if code < 0x80 {
        1
    } else if code < 0x800 {
        2
    } else if code < 0x10000 {
        3
    } else {
        4
    }
}

/// Tells whether a character is a digit of the radix eight or ten.
fn digit_of(c: char, radix: i64) -> (digit: bool)
    requires
        radix == 8 || radix == 10,
    ensures
        digit == is_digit(c, radix as int),
{
    if radix == 8 {
        c >= '0' && c <= '7'
    } else {
        c >= '0' && c <= '9'
    }
}

/// Tells whether a character may continue a word.
fn word_part(c: char) -> (part: bool)
    ensures
        part == is_word_part(c),
{
    (c >= 'a' && c <= 'z') || (c >= 'A' && c <= 'Z') || (c >= '0' && c <= '9') || c == '_' || (c
        > '\x7f' && c.is_alphanumeric())
}

/// Packs one more character into a value.
fn pack(value: i64, c: char) -> (r: i64)
    ensures
        r == pack_one(value, c),
{
    (value << 8) | (c as u32 as i64)
}

/// The character that stands for the character after the escape character.
fn unescaped(c: char) -> (plain: char)
    ensures
        plain == unescape(c),
{
    match c {
        'n' => '\n',
        't' => '\t',
        '0' => '\0',
        '*' => '*',
        '"' => '"',
        other => other,
    }
}

impl Scanner {
    /// The text that the scanner reads.
    pub closed spec fn text(&self) -> Seq<char> {
        self.chars@
    }

    /// The position in the text of the next character to read.
    pub closed spec fn cursor(&self) -> int {
        self.position as int
    }

    /// The invariant of the scanner: its position is one of the text, its
    /// location is that of the position, and all locations of the text fit
    /// the machine.
    pub closed spec fn wf(&self) -> bool {
        &&& self.position <= self.chars@.len()
        &&& text_fits(self.chars@)
        &&& self.current_loc == location_at(self.chars@, self.position as int)
    }

    /// A scanner at the start of the source: line one, column one.
    pub fn new(source: &str) -> (scanner: Self)
        requires
            text_fits(source@),
        ensures
            scanner.wf(),
            scanner.text() == source@,
            scanner.cursor() == 0,
    {
        let mut chars: Vec<char> = Vec::new();
        for c in it: source.chars()
            invariant
                chars@ == it.seq().take(it.index()),
        {
            chars.push(c);
        }
        Scanner { chars, position: 0, current_loc: Location { offset: 0, line: 1, column: 1 } }
    }

    /// Consumes the next character and moves the location over it: a line
    /// feed starts a new line, any other character adds a column.
    fn advance(&mut self) -> (c: Option<char>)
        requires
            old(self).wf(),
        ensures
            final(self).wf(),
            final(self).text() == old(self).text(),
            match c {
                Some(ch) => old(self).cursor() < old(self).text().len() && ch == old(
                    self,
                ).text()[old(self).cursor()] && final(self).cursor() == old(self).cursor() + 1,
                None => old(self).cursor() == old(self).text().len() && final(self).cursor()
                    == old(self).cursor(),
            },
    {
        if self.position >= self.chars.len() {
            return None;
        }
        let c = self.chars[self.position];
        proof {
            lemma_location_bounds(self.chars@, self.position as int);
            lemma_location_bounds(self.chars@, self.position + 1);
        }
        self.current_loc.offset += utf8_length(c);
        if c == '\n' {
            self.current_loc.line += 1;
            self.current_loc.column = 1;
        } else {
            self.current_loc.column += 1;
        }
        self.position += 1;
        Some(c)
    }

    /// The next character.
    fn peek(&self) -> (c: Option<char>)
        requires
            self.wf(),
        ensures
            c == if self.cursor() < self.text().len() {
                Some(self.text()[self.cursor()])
            } else {
                None
            },
    {
        if self.position < self.chars.len() {
            Some(self.chars[self.position])
        } else {
            None
        }
    }

    /// The character after the next one.
    fn peek_next(&self) -> (c: Option<char>)
        requires
            self.wf(),
        ensures
            c == if self.cursor() + 1 < self.text().len() {
                Some(self.text()[self.cursor() + 1])
            } else {
                None
            },
    {
        if self.position < self.chars.len() && self.position + 1 < self.chars.len() {
            Some(self.chars[self.position + 1])
        } else {
            None
        }
    }

    /// Consumes the next character if it is the expected one, and tells
    /// whether it did.
    fn match_char(&mut self, expected: char) -> (matched: bool)
        requires
            old(self).wf(),
        ensures
            final(self).wf(),
            final(self).text() == old(self).text(),
            matched == (old(self).cursor() < old(self).text().len() && old(self).text()[old(
                self,
            ).cursor()] == expected),
            final(self).cursor() == if matched {
                old(self).cursor() + 1
            } else {
                old(self).cursor()
            },
    {
        match self.peek() {
            Some(c) => {
                if c == expected {
                    self.advance();
                    return true;
                }
                false
            },
            None => false,
        }
    }

    /// The characters of the text from `start` to `end`, as a string.
    fn lexeme(&self, start: usize, end: usize) -> (lexeme: String)
        requires
            start <= end <= self.text().len(),
        ensures
            lexeme@ == self.text().subrange(start as int, end as int),
    {
        let mut lexeme = String::new();
        let mut i = start;
        while i < end
            invariant
                start <= i <= end <= self.chars@.len(),
                lexeme@ == self.chars@.subrange(start as int, i as int),
            decreases end - i,
        {
            lexeme.push(self.chars[i]);
            i += 1;
            assert(self.chars@.subrange(start as int, i as int) =~= self.chars@.subrange(
                start as int,
                i - 1,
            ).push(self.chars@[i - 1]));
        }
        lexeme
    }

    /// Tells whether the characters of the text from `start` to `end` spell
    /// the word.
    fn spells(&self, start: usize, end: usize, word: &str) -> (same: bool)
        requires
            start <= end <= self.text().len(),
        ensures
            same == (self.text().subrange(start as int, end as int) == word@),
    {
        let n = word.unicode_len();
        if end - start != n {
            return false;
        }
        let mut i: usize = 0;
        while i < n
            invariant
                start <= end <= self.chars@.len(),
                end - start == n,
                n == word@.len(),
                i <= n,
                forall|j: int| 0 <= j < i ==> self.chars@[start + j] == word@[j],
            decreases n - i,
        {
            if self.chars[start + i] != word.get_char(i) {
                assert(self.chars@.subrange(start as int, end as int)[i as int] != word@[i as int]);
                return false;
            }
            i += 1;
        }
        assert(self.chars@.subrange(start as int, end as int) =~= word@);
        true
    }

    /// Reads the rest of a numeric literal, after its first digit.
    ///
    /// A leading `0` selects the radix eight, any other digit ten. The
    /// literal is the longest run of digits of that radix.
    fn read_number(&mut self, first_char: char) -> (result: Result<Token, LexError>)
        requires
            old(self).wf(),
            old(self).cursor() > 0,
            old(self).text()[old(self).cursor() - 1] == first_char,
            is_digit(first_char, 10),
        ensures
            final(self).wf(),
            final(self).text() == old(self).text(),
            old(self).cursor() <= final(self).cursor(),
            lexed(result, final(self).cursor(), number_from(old(self).text(), old(self).cursor() - 1)),
    {
        let start = self.position - 1;
        let radix: i64 = if first_char == '0' {
            8
        } else {
            10
        };
        let mut value: Option<i64> = Some((first_char as u32 - '0' as u32) as i64);
        assert(self.chars@.subrange(start as int, start + 1).drop_last() =~= Seq::empty());
        assert(digits_value(self.chars@.subrange(start as int, start + 1), radix as int)
            == first_char as int - '0' as int) by {
            reveal_with_fuel(digits_value, 2);
        }
        loop
            invariant
                self.wf(),
                self.text() == old(self).text(),
                radix == radix_of(first_char),
                start == old(self).cursor() - 1,
                start < self.position <= self.chars@.len(),
                digits_end(self.chars@, start + 1, radix as int) == digits_end(
                    self.chars@,
                    self.position as int,
                    radix as int,
                ),
                value matches Some(v) ==> 0 <= v == digits_value(
                    self.chars@.subrange(start as int, self.position as int),
                    radix as int,
                ),
                value is None ==> digits_value(
                    self.chars@.subrange(start as int, self.position as int),
                    radix as int,
                ) > i64::MAX,
            ensures
                digits_end(self.chars@, start + 1, radix as int) == self.position,
            decreases self.chars@.len() - self.position,
        {
            let c = match self.peek() {
                Some(c) => c,
                None => {
                    break ;
                },
            };
            if !digit_of(c, radix) {
                break ;
            }
            let ghost before = self.chars@.subrange(start as int, self.position as int);
            self.advance();
            let digit = (c as u32 - '0' as u32) as i64;
            proof {
                let now = self.chars@.subrange(start as int, self.position as int);
                assert(now.drop_last() =~= before);
                assert(now.last() == c);
                if value is None {
                    lemma_more_digits(
                        digits_value(before, radix as int),
                        radix as int,
                        digit as int,
                        i64::MAX as int,
                    );
                }
            }
            value = match value {
                Some(v) => match v.checked_mul(radix) {
                    Some(scaled) => scaled.checked_add(digit),
                    None => None,
                },
                None => None,
            };
        }
        match value {
            Some(v) => Ok(Token::Integer(v)),
            None => Err(LexError::InvalidNumber(self.lexeme(start, self.position), self.current_loc)),
        }
    }

    /// Reads the rest of a word, after its first character, and tells the
    /// keywords from the identifiers.
    fn read_identifier(&mut self, first_char: char) -> (result: Result<Token, LexError>)
        requires
            old(self).wf(),
            old(self).cursor() > 0,
            old(self).text()[old(self).cursor() - 1] == first_char,
        ensures
            final(self).wf(),
            final(self).text() == old(self).text(),
            old(self).cursor() <= final(self).cursor(),
            lexed(result, final(self).cursor(), word_from(old(self).text(), old(self).cursor() - 1)),
    {
        let start = self.position - 1;
        loop
            invariant
                self.wf(),
                self.text() == old(self).text(),
                start == old(self).cursor() - 1,
                start < self.position <= self.chars@.len(),
                word_end(self.chars@, start + 1) == word_end(self.chars@, self.position as int),
            ensures
                word_end(self.chars@, start + 1) == self.position,
            decreases self.chars@.len() - self.position,
        {
            match self.peek() {
                Some(c) => {
                    if word_part(c) {
                        self.advance();
                    } else {
                        break ;
                    }
                },
                None => {
                    break ;
                },
            }
        }
        let end = self.position;
        let token = if self.spells(start, end, "auto") {
            Token::Keyword(Keyword::Auto)
        } else if self.spells(start, end, "extrn") {
            Token::Keyword(Keyword::Extrn)
        } else if self.spells(start, end, "if") {
            Token::Keyword(Keyword::If)
        } else if self.spells(start, end, "else") {
            Token::Keyword(Keyword::Else)
        } else if self.spells(start, end, "while") {
            Token::Keyword(Keyword::While)
        } else if self.spells(start, end, "switch") {
            Token::Keyword(Keyword::Switch)
        } else if self.spells(start, end, "case") {
            Token::Keyword(Keyword::Case)
        } else if self.spells(start, end, "default") {
            Token::Keyword(Keyword::Default)
        } else if self.spells(start, end, "return") {
            Token::Keyword(Keyword::Return)
        } else if self.spells(start, end, "goto") {
            Token::Keyword(Keyword::Goto)
        } else {
            Token::Identifier(self.lexeme(start, end))
        };
        Ok(token)
    }

    /// Reads the rest of a string literal, after its opening quote, and
    /// resolves its escapes.
    fn read_str(&mut self) -> (result: Result<Token, LexError>)
        requires
            old(self).wf(),
            old(self).cursor() > 0,
        ensures
            final(self).wf(),
            final(self).text() == old(self).text(),
            old(self).cursor() <= final(self).cursor(),
            lexed(result, final(self).cursor(), string_from(old(self).text(), old(self).cursor() - 1)),
    {
        let mut content = String::new();
        loop
            invariant
                self.wf(),
                self.text() == old(self).text(),
                old(self).cursor() <= self.cursor(),
                quoted_from(self.chars@, old(self).cursor(), '"', Seq::empty()) == quoted_from(
                    self.chars@,
                    self.position as int,
                    '"',
                    content@,
                ),
            decreases self.chars@.len() - self.position,
        {
            match self.advance() {
                Some(c) => {
                    match c {
                        '"' => {
                            return Ok(Token::StringLiteral(content));
                        },
                        '*' => {
                            match self.advance() {
                                Some(escaped) => content.push(unescaped(escaped)),
                                None => {
                                    return Err(LexError::UnterminatedString(self.current_loc));
                                },
                            }
                        },
                        _ => content.push(c),
                    }
                },
                None => {
                    return Err(LexError::UnterminatedString(self.current_loc));
                },
            }
        }
    }

    /// Skips blanks and comments.
    fn skip_whitespace(&mut self) -> (result: Result<(), LexError>)
        requires
            old(self).wf(),
        ensures
            final(self).wf(),
            final(self).text() == old(self).text(),
            old(self).cursor() <= final(self).cursor(),
            match blanks_end(old(self).text(), old(self).cursor()) {
                Some(end) => result is Ok && final(self).cursor() == end,
                None => result matches Err(error) && error@ == LexErrorView::UnterminatedComment(
                    location_at(old(self).text(), old(self).text().len() as int),
                ) && final(self).cursor() == old(self).text().len() && old(self).cursor()
                    < old(self).text().len(),
            },
    {
        loop
            invariant
                self.wf(),
                self.text() == old(self).text(),
                old(self).cursor() <= self.cursor(),
                blanks_end(old(self).text(), old(self).cursor()) == blanks_end(
                    self.chars@,
                    self.position as int,
                ),
            ensures
                blanks_end(old(self).text(), old(self).cursor()) == Some(self.position as int),
            decreases self.chars@.len() - self.position,
        {
            match self.peek() {
                Some(' ') | Some('\t') | Some('\n') | Some('\r') => {
                    self.advance();
                },
                Some('/') => {
                    if matches!(self.peek_next(), Some('*')) {
                        self.consume_comment()?;
                    } else {
                        break ;
                    }
                },
                _ => {
                    break ;
                },
            }
        }
        Ok(())
    }

    /// Skips a comment: the scanner stands on its `/*`.
    fn consume_comment(&mut self) -> (result: Result<(), LexError>)
        requires
            old(self).wf(),
            old(self).cursor() + 1 < old(self).text().len(),
            old(self).text()[old(self).cursor()] == '/',
            old(self).text()[old(self).cursor() + 1] == '*',
        ensures
            final(self).wf(),
            final(self).text() == old(self).text(),
            match comment_end(old(self).text(), old(self).cursor() + 2) {
                Some(end) => result is Ok && final(self).cursor() == end && old(self).cursor()
                    < end <= old(self).text().len(),
                None => result matches Err(error) && error@ == LexErrorView::UnterminatedComment(
                    location_at(old(self).text(), old(self).text().len() as int),
                ) && final(self).cursor() == old(self).text().len(),
            },
    {
        self.advance();
        self.advance();
        loop
            invariant
                self.wf(),
                self.text() == old(self).text(),
                old(self).cursor() < self.cursor(),
                comment_end(old(self).text(), old(self).cursor() + 2) == comment_end(
                    self.chars@,
                    self.position as int,
                ),
            decreases self.chars@.len() - self.position,
        {
            match self.advance() {
                Some(c) => {
                    if c == '*' && self.match_char('/') {
                        return Ok(());
                    }
                },
                None => {
                    return Err(LexError::UnterminatedComment(self.current_loc));
                },
            }
        }
    }

    /// Reads the rest of a character literal, after its opening quote, and
    /// packs its first two characters into a number.
    ///
    /// None, one or two characters may stand between the quotes. More are
    /// read too, and do not count.
    fn read_char_literal(&mut self) -> (result: Result<Token, LexError>)
        requires
            old(self).wf(),
            old(self).cursor() > 0,
        ensures
            final(self).wf(),
            final(self).text() == old(self).text(),
            old(self).cursor() <= final(self).cursor(),
            lexed(
                result,
                final(self).cursor(),
                character_from(old(self).text(), old(self).cursor() - 1),
            ),
    {
        let mut chars: Vec<char> = Vec::new();
        loop
            invariant
                self.wf(),
                self.text() == old(self).text(),
                old(self).cursor() <= self.cursor(),
                quoted_from(self.chars@, old(self).cursor(), '\'', Seq::empty()) == quoted_from(
                    self.chars@,
                    self.position as int,
                    '\'',
                    chars@,
                ),
            decreases self.chars@.len() - self.position,
        {
            match self.advance() {
                Some(c) => {
                    match c {
                        '\'' => {
                            let value = if chars.len() == 0 {
                                0
                            } else if chars.len() == 1 {
                                pack(0, chars[0])
                            } else {
                                pack(pack(0, chars[0]), chars[1])
                            };
                            return Ok(Token::CharLiteral(value));
                        },
                        '*' => {
                            match self.advance() {
                                Some(escaped) => chars.push(unescaped(escaped)),
                                None => {
                                    return Err(LexError::UnterminatedChar(self.current_loc));
                                },
                            }
                        },
                        _ => chars.push(c),
                    }
                },
                None => {
                    return Err(LexError::UnterminatedChar(self.current_loc));
                },
            }
        }
    }

    /// Reads the rest of an operator, after its first character. A character
    /// that starts none is an error.
    fn read_operator(&mut self, c: char) -> (result: Result<Token, LexError>)
        requires
            old(self).wf(),
            old(self).cursor() > 0,
            old(self).text()[old(self).cursor() - 1] == c,
        ensures
            final(self).wf(),
            final(self).text() == old(self).text(),
            old(self).cursor() <= final(self).cursor(),
            lexed(
                result,
                final(self).cursor(),
                match operator_from(old(self).text(), old(self).cursor() - 1) {
                    Some((operator, length)) => (
                        Ok(TokenView::Operator(operator)),
                        old(self).cursor() - 1 + length,
                    ),
                    None => (
                        Err(
                            LexErrorView::UnexpectedChar(
                                c,
                                location_at(old(self).text(), old(self).cursor()),
                            ),
                        ),
                        old(self).cursor(),
                    ),
                },
            ),
    {
        match c {
            '=' => {
                if self.match_char('=') {
                    Ok(Token::Operator(Operator::Equal))
                } else if self.match_char('+') {
                    Ok(Token::Operator(Operator::AssignPlus))
                } else if self.match_char('-') {
                    Ok(Token::Operator(Operator::AssignMinus))
                } else if self.match_char('*') {
                    Ok(Token::Operator(Operator::AssignStar))
                } else if self.match_char('/') {
                    Ok(Token::Operator(Operator::AssignSlash))
                } else if self.match_char('%') {
                    Ok(Token::Operator(Operator::AssignPercent))
                } else if self.match_char('&') {
                    Ok(Token::Operator(Operator::AssignAmp))
                } else {
                    Ok(Token::Operator(Operator::Assign))
                }
            },
            '+' => {
                if self.match_char('+') {
                    Ok(Token::Operator(Operator::Inc))
                } else {
                    Ok(Token::Operator(Operator::Plus))
                }
            },
            '-' => {
                if self.match_char('-') {
                    Ok(Token::Operator(Operator::Dec))
                } else {
                    Ok(Token::Operator(Operator::Minus))
                }
            },
            '*' => Ok(Token::Operator(Operator::Star)),
            '/' => Ok(Token::Operator(Operator::Slash)),
            '%' => Ok(Token::Operator(Operator::Percent)),
            '|' => Ok(Token::Operator(Operator::Bar)),
            '^' => Ok(Token::Operator(Operator::Caret)),
            '!' => Ok(Token::Operator(Operator::Bang)),
            '~' => Ok(Token::Operator(Operator::Tilde)),
            '&' => Ok(Token::Operator(Operator::Amp)),
            '>' => {
                if self.match_char('>') {
                    Ok(Token::Operator(Operator::RShift))
                } else if self.match_char('=') {
                    Ok(Token::Operator(Operator::GreaterEq))
                } else {
                    Ok(Token::Operator(Operator::Greater))
                }
            },
            '<' => {
                if self.match_char('<') {
                    Ok(Token::Operator(Operator::LShift))
                } else if self.match_char('=') {
                    Ok(Token::Operator(Operator::LessEq))
                } else {
                    Ok(Token::Operator(Operator::Less))
                }
            },
            _ => Err(LexError::UnexpectedChar(c, self.current_loc)),
        }
    }

    /// What the source yields next: a token with its span, or an error in the
    /// place of a token; nothing at the end of the source.
    ///
    /// Blanks and comments before the token are skipped. After an error the
    /// scanner goes on with the characters that follow what it had consumed.
    /// Where it yields nothing, it has reached the end of the source.
    pub fn next(&mut self) -> (item: Option<Result<SpannedToken, LexError>>)
        requires
            old(self).wf(),
        ensures
            final(self).wf(),
            final(self).text() == old(self).text(),
            match next_from(old(self).text(), old(self).cursor()) {
                Some((expected, end)) => item matches Some(found) && item_view(found) == expected
                    && final(self).cursor() == end && old(self).cursor() < end <= old(
                    self,
                ).text().len(),
                None => item is None && final(self).cursor() == old(self).text().len(),
            },
    {
        if let Err(e) = self.skip_whitespace() {
            return Some(Err(e));
        }
        let c = match self.peek() {
            Some(c) => c,
            None => {
                return None;
            },
        };
        let start_loc = self.current_loc;
        self.advance();
        let result = match c {
            '(' => Ok(Token::Delimiter(Delimiter::LParen)),
            ')' => Ok(Token::Delimiter(Delimiter::RParen)),
            '[' => Ok(Token::Delimiter(Delimiter::LBrack)),
            ']' => Ok(Token::Delimiter(Delimiter::RBrack)),
            '{' => Ok(Token::Delimiter(Delimiter::LBrace)),
            '}' => Ok(Token::Delimiter(Delimiter::RBrace)),
            ',' => Ok(Token::Delimiter(Delimiter::Comma)),
            ';' => Ok(Token::Delimiter(Delimiter::Semicolon)),
            ':' => Ok(Token::Delimiter(Delimiter::Colon)),
            '?' => Ok(Token::Delimiter(Delimiter::QMark)),
            '0'..='9' => self.read_number(c),
            'a'..='z' | 'A'..='Z' | '_' => self.read_identifier(c),
            '"' => self.read_str(),
            '\'' => self.read_char_literal(),
            _ => self.read_operator(c),
        };
        match result {
            Ok(token) => Some(Ok(SpannedToken { token, span: Span { start: start_loc, end: self.current_loc } })),
            Err(error) => Some(Err(error)),
        }
    }
}

/// Tells whether the locations of a source fit the machine, as the scanner
/// requires of its source.
pub fn fits(source: &str) -> (fit: bool)
    ensures
        fit == text_fits(source@),
{
    source.unicode_len() <= (usize::MAX - 1) / 4
}

/// Scans a whole source: everything its scanner yields, in order.
pub fn scan(source: &str) -> (items: Vec<Result<SpannedToken, LexError>>)
    requires
        text_fits(source@),
    ensures
        item_views(items@) == scan_from(source@, 0),
{
    let mut scanner = Scanner::new(source);
    let mut items: Vec<Result<SpannedToken, LexError>> = Vec::new();
    assert(item_views(items@) =~= Seq::empty());
    loop
        invariant_except_break
            scan_from(source@, 0) == item_views(items@) + scan_from(source@, scanner.cursor()),
        invariant
            scanner.wf(),
            scanner.text() == source@,
        ensures
            scan_from(source@, 0) == item_views(items@),
        decreases source@.len() - scanner.cursor(),
    {
        let ghost before = item_views(items@);
        match scanner.next() {
            Some(item) => {
                let ghost view = item_view(item);
                items.push(item);
                assert(item_views(items@) =~= before.push(view));
                assert(before + (seq![view] + scan_from(source@, scanner.cursor()))
                    =~= before.push(view) + scan_from(source@, scanner.cursor()));
            },
            None => {
                assert(before + Seq::empty() =~= before);
                break ;
            },
        }
    }
    items
}

/// Scans a whole source into a buffer of tokens, as the parser takes it: all
/// its tokens in order, or the first error. The buffer has no end-of-input
/// marker: the parser reads the end of the buffer as one. Every name in the
/// buffer is a word of the language.
pub fn tokenize(source: &str) -> (result: Result<Vec<SpannedToken>, LexError>)
    requires
        text_fits(source@),
    ensures
        match tokens_from(source@, 0) {
            Ok(expected) => result matches Ok(tokens) && token_views(tokens@) == expected,
            Err(expected) => result matches Err(error) && error@ == expected,
        },
        result matches Ok(tokens) ==> crate::parser::names::plain_buffer(tokens@),
{
    proof {
        crate::lexer::laws::lemma_scanned_names(source@, 0);
    }
    let mut scanner = Scanner::new(source);
    let mut tokens: Vec<SpannedToken> = Vec::new();
    assert(token_views(tokens@) =~= Seq::empty());
    assert(after_tokens(Seq::empty(), tokens_from(source@, 0)) == tokens_from(source@, 0)) by {
        if tokens_from(source@, 0) is Ok {
            assert(Seq::<SpannedTokenView>::empty() + tokens_from(source@, 0)->Ok_0
                =~= tokens_from(source@, 0)->Ok_0);
        }
    }
    loop
        invariant_except_break
            tokens_from(source@, 0) == after_tokens(
                token_views(tokens@),
                tokens_from(source@, scanner.cursor()),
            ),
        invariant
            scanner.wf(),
            scanner.text() == source@,
        ensures
            tokens_from(source@, 0) == Ok::<Seq<SpannedTokenView>, LexErrorView>(
                token_views(tokens@),
            ),
        decreases source@.len() - scanner.cursor(),
    {
        let ghost before = token_views(tokens@);
        let ghost from = scanner.cursor();
        match scanner.next() {
            Some(Ok(token)) => {
                let ghost view = token@;
                tokens.push(token);
                assert(token_views(tokens@) =~= before.push(view));
                proof {
                    let rest = tokens_from(source@, scanner.cursor());
                    if rest is Ok {
                        assert(before + (seq![view] + rest->Ok_0) =~= before.push(view)
                            + rest->Ok_0);
                    }
                }
            },
            Some(Err(error)) => {
                return Err(error);
            },
            None => {
                assert(before + Seq::<SpannedTokenView>::empty() =~= before);
                break ;
            },
        }
    }
    assert(crate::parser::names::plain_buffer(tokens@)) by {
        assert forall|i: int| 0 <= i < tokens@.len() implies crate::ast::reading::is_plain(
            (#[trigger] tokens@[i]).token@,
        ) by {
            assert(token_views(tokens@)[i] == tokens@[i]@);
        }
    }
    Ok(tokens)
}

} // verus!
