use bfront::common::span::{Location, Span};
use bfront::lexer::scanner::{fits, scan, tokenize, Scanner};
use bfront::lexer::token::{Delimiter, Keyword, Operator, SpannedToken, Token};
use bfront::lexer::LexError;

fn tokens_of(source: &str) -> Vec<Token> {
    scan(source).into_iter().map(|item| item.unwrap().token).collect()
}

fn at(offset: usize, line: usize, column: usize) -> Location {
    Location { offset, line, column }
}

#[test]
fn scans_a_sum() {
    assert_eq!(
        tokens_of("a + b"),
        vec![
            Token::Identifier("a".to_string()),
            Token::Operator(Operator::Plus),
            Token::Identifier("b".to_string()),
        ]
    );
}

#[test]
fn yields_nothing_for_the_empty_source() {
    let mut scanner = Scanner::new("");
    assert!(scanner.next().is_none());
    assert!(scanner.next().is_none());
    assert!(scan("").is_empty());
    assert!(scan(" \t\r\n").is_empty());
}

#[test]
fn decimal_literal_has_its_value() {
    assert_eq!(tokens_of("123"), vec![Token::Integer(123)]);
    assert_eq!(tokens_of("7"), vec![Token::Integer(7)]);
    assert_eq!(tokens_of("9223372036854775807"), vec![Token::Integer(i64::MAX)]);
}

#[test]
fn leading_zero_selects_octal() {
    assert_eq!(tokens_of("010"), vec![Token::Integer(8)]);
    assert_eq!(tokens_of("0"), vec![Token::Integer(0)]);
    assert_eq!(tokens_of("0777"), vec![Token::Integer(511)]);
    assert_eq!(tokens_of("00017"), vec![Token::Integer(15)]);
}

#[test]
fn digit_outside_the_radix_ends_the_literal() {
    assert_eq!(tokens_of("09"), vec![Token::Integer(0), Token::Integer(9)]);
    assert_eq!(tokens_of("0178"), vec![Token::Integer(15), Token::Integer(8)]);
    assert_eq!(
        tokens_of("12a"),
        vec![Token::Integer(12), Token::Identifier("a".to_string())]
    );
}

#[test]
fn number_that_does_not_fit_is_invalid() {
    let items = scan("9223372036854775808 1");
    assert_eq!(items.len(), 2);
    assert_eq!(
        items[0],
        Err(LexError::InvalidNumber("9223372036854775808".to_string(), at(19, 1, 20)))
    );
    assert_eq!(items[1].as_ref().unwrap().token, Token::Integer(1));
    let octal = scan("01000000000000000000000");
    assert_eq!(
        octal,
        vec![Err(LexError::InvalidNumber(
            "01000000000000000000000".to_string(),
            at(23, 1, 24)
        ))]
    );
    assert_eq!(tokens_of("0777777777777777777777"), vec![Token::Integer(i64::MAX)]);
}

#[test]
fn plain_string_literal_keeps_its_content() {
    assert_eq!(
        tokens_of("\"hello, world!\""),
        vec![Token::StringLiteral("hello, world!".to_string())]
    );
    assert_eq!(tokens_of("\"\""), vec![Token::StringLiteral(String::new())]);
    let items = scan("\"ab\"");
    assert_eq!(
        items,
        vec![Ok(SpannedToken {
            token: Token::StringLiteral("ab".to_string()),
            span: Span { start: at(0, 1, 1), end: at(4, 1, 5) },
        })]
    );
}

#[test]
fn escape_round_trip() {
    assert_eq!(
        tokens_of("\"*n*t*0**\""),
        vec![Token::StringLiteral("\n\t\0*".to_string())]
    );
}

#[test]
fn escapes_in_strings() {
    assert_eq!(tokens_of("\"a*\"b\""), vec![Token::StringLiteral("a\"b".to_string())]);
    assert_eq!(tokens_of("\"*x*'\""), vec![Token::StringLiteral("x'".to_string())]);
}

#[test]
fn string_literal_ends_at_its_closing_quote() {
    assert_eq!(
        tokens_of("\"a\";x"),
        vec![
            Token::StringLiteral("a".to_string()),
            Token::Delimiter(Delimiter::Semicolon),
            Token::Identifier("x".to_string()),
        ]
    );
}

#[test]
fn unterminated_string_is_one_error() {
    assert_eq!(scan("\"abc"), vec![Err(LexError::UnterminatedString(at(4, 1, 5)))]);
    assert_eq!(scan("\"abc*"), vec![Err(LexError::UnterminatedString(at(5, 1, 6)))]);
    assert_eq!(scan("\"a\nb"), vec![Err(LexError::UnterminatedString(at(4, 2, 2)))]);
}

#[test]
fn unterminated_comment_is_one_error() {
    assert_eq!(
        scan("/* unterminated"),
        vec![Err(LexError::UnterminatedComment(at(15, 1, 16)))]
    );
    assert_eq!(scan("/*/"), vec![Err(LexError::UnterminatedComment(at(3, 1, 4)))]);
    let items = scan("a /* b");
    assert_eq!(items.len(), 2);
    assert_eq!(items[0].as_ref().unwrap().token, Token::Identifier("a".to_string()));
    assert_eq!(items[1], Err(LexError::UnterminatedComment(at(6, 1, 7))));
}

#[test]
fn comments_are_skipped() {
    assert_eq!(
        tokens_of("a /* c * / */ b"),
        vec![Token::Identifier("a".to_string()), Token::Identifier("b".to_string())]
    );
    assert!(scan("/**/").is_empty());
    assert!(scan("/***/ /* */").is_empty());
    assert_eq!(
        tokens_of("a / b"),
        vec![
            Token::Identifier("a".to_string()),
            Token::Operator(Operator::Slash),
            Token::Identifier("b".to_string()),
        ]
    );
}

#[test]
fn character_literals_are_packed() {
    assert_eq!(tokens_of("'a'"), vec![Token::CharLiteral(97)]);
    assert_eq!(tokens_of("'ab'"), vec![Token::CharLiteral((97 << 8) | 98)]);
    assert_eq!(tokens_of("''"), vec![Token::CharLiteral(0)]);
    assert_eq!(tokens_of("'abc'"), vec![Token::CharLiteral((97 << 8) | 98)]);
    assert_eq!(tokens_of("'*n'"), vec![Token::CharLiteral(10)]);
    assert_eq!(tokens_of("'*0a'"), vec![Token::CharLiteral(97)]);
    assert_eq!(tokens_of("'*''"), vec![Token::CharLiteral(39)]);
    assert_eq!(tokens_of("'\u{e9}'"), vec![Token::CharLiteral(0xe9)]);
    assert_eq!(tokens_of("'\u{4e2d}a'"), vec![Token::CharLiteral((0x4e2d << 8) | 97)]);
}

#[test]
fn unterminated_character_literal_is_an_error() {
    assert_eq!(scan("'a"), vec![Err(LexError::UnterminatedChar(at(2, 1, 3)))]);
    assert_eq!(scan("'*"), vec![Err(LexError::UnterminatedChar(at(2, 1, 3)))]);
}

#[test]
fn keywords_are_told_from_identifiers() {
    assert_eq!(
        tokens_of("auto extrn if else while switch case default return goto"),
        vec![
            Token::Keyword(Keyword::Auto),
            Token::Keyword(Keyword::Extrn),
            Token::Keyword(Keyword::If),
            Token::Keyword(Keyword::Else),
            Token::Keyword(Keyword::While),
            Token::Keyword(Keyword::Switch),
            Token::Keyword(Keyword::Case),
            Token::Keyword(Keyword::Default),
            Token::Keyword(Keyword::Return),
            Token::Keyword(Keyword::Goto),
        ]
    );
    assert_eq!(
        tokens_of("autox Auto _if if_ a1_b2 _"),
        vec![
            Token::Identifier("autox".to_string()),
            Token::Identifier("Auto".to_string()),
            Token::Identifier("_if".to_string()),
            Token::Identifier("if_".to_string()),
            Token::Identifier("a1_b2".to_string()),
            Token::Identifier("_".to_string()),
        ]
    );
}

#[test]
fn identifier_goes_on_over_letters_beyond_ascii() {
    assert_eq!(tokens_of("a\u{e9}\u{4e2d}1"), vec![Token::Identifier("a\u{e9}\u{4e2d}1".to_string())]);
    let items = scan("\u{e9}a");
    assert_eq!(items.len(), 2);
    assert_eq!(items[0], Err(LexError::UnexpectedChar('\u{e9}', at(2, 1, 2))));
    assert_eq!(items[1].as_ref().unwrap().span, Span { start: at(2, 1, 2), end: at(3, 1, 3) });
    let dashed = scan("a\u{2014}b");
    assert_eq!(dashed.len(), 3);
    assert_eq!(dashed[1], Err(LexError::UnexpectedChar('\u{2014}', at(4, 1, 3))));
    assert_eq!(tokens_of("x\u{665}"), vec![Token::Identifier("x\u{665}".to_string())]);
}

#[test]
fn operators_are_read_at_their_longest() {
    let cases = vec![
        ("+", Operator::Plus),
        ("-", Operator::Minus),
        ("*", Operator::Star),
        ("/", Operator::Slash),
        ("%", Operator::Percent),
        ("&", Operator::Amp),
        ("|", Operator::Bar),
        ("^", Operator::Caret),
        ("<<", Operator::LShift),
        (">>", Operator::RShift),
        ("!", Operator::Bang),
        ("~", Operator::Tilde),
        ("==", Operator::Equal),
        ("<", Operator::Less),
        (">", Operator::Greater),
        ("<=", Operator::LessEq),
        (">=", Operator::GreaterEq),
        ("++", Operator::Inc),
        ("--", Operator::Dec),
        ("=", Operator::Assign),
        ("=+", Operator::AssignPlus),
        ("=-", Operator::AssignMinus),
        ("=*", Operator::AssignStar),
        ("=/", Operator::AssignSlash),
        ("=%", Operator::AssignPercent),
        ("=&", Operator::AssignAmp),
    ];
    for (text, operator) in cases {
        assert_eq!(tokens_of(text), vec![Token::Operator(operator)], "{}", text);
    }
}

#[test]
fn operators_next_to_each_other() {
    assert_eq!(
        tokens_of("!="),
        vec![Token::Operator(Operator::Bang), Token::Operator(Operator::Assign)]
    );
    assert_eq!(
        tokens_of("+++"),
        vec![Token::Operator(Operator::Inc), Token::Operator(Operator::Plus)]
    );
    assert_eq!(
        tokens_of("x =- 1"),
        vec![
            Token::Identifier("x".to_string()),
            Token::Operator(Operator::AssignMinus),
            Token::Integer(1),
        ]
    );
    assert_eq!(
        tokens_of("==="),
        vec![Token::Operator(Operator::Equal), Token::Operator(Operator::Assign)]
    );
    assert_eq!(
        tokens_of(">>="),
        vec![Token::Operator(Operator::RShift), Token::Operator(Operator::Assign)]
    );
}

#[test]
fn delimiters_are_single_characters() {
    assert_eq!(
        tokens_of("()[]{},;:?"),
        vec![
            Token::Delimiter(Delimiter::LParen),
            Token::Delimiter(Delimiter::RParen),
            Token::Delimiter(Delimiter::LBrack),
            Token::Delimiter(Delimiter::RBrack),
            Token::Delimiter(Delimiter::LBrace),
            Token::Delimiter(Delimiter::RBrace),
            Token::Delimiter(Delimiter::Comma),
            Token::Delimiter(Delimiter::Semicolon),
            Token::Delimiter(Delimiter::Colon),
            Token::Delimiter(Delimiter::QMark),
        ]
    );
}

#[test]
fn spans_follow_lines_and_columns() {
    let items = scan("ab\n cd\t9");
    let spans: Vec<Span> = items.into_iter().map(|item| item.unwrap().span).collect();
    assert_eq!(
        spans,
        vec![
            Span { start: at(0, 1, 1), end: at(2, 1, 3) },
            Span { start: at(4, 2, 2), end: at(6, 2, 4) },
            Span { start: at(7, 2, 5), end: at(8, 2, 6) },
        ]
    );
}

#[test]
fn offsets_count_bytes_and_columns_count_characters() {
    let items = scan("\"\u{e9}\u{4e2d}\u{1f600}\" x");
    assert_eq!(
        items[0].as_ref().unwrap().span,
        Span { start: at(0, 1, 1), end: at(11, 1, 6) }
    );
    assert_eq!(
        items[1].as_ref().unwrap().span,
        Span { start: at(12, 1, 7), end: at(13, 1, 8) }
    );
}

#[test]
fn an_error_does_not_end_the_scan() {
    let items = scan("a $ b");
    assert_eq!(items.len(), 3);
    assert_eq!(items[0].as_ref().unwrap().token, Token::Identifier("a".to_string()));
    assert_eq!(items[1], Err(LexError::UnexpectedChar('$', at(3, 1, 4))));
    assert_eq!(items[2].as_ref().unwrap().token, Token::Identifier("b".to_string()));
}

#[test]
fn scanner_yields_one_item_at_a_time() {
    let mut scanner = Scanner::new("x = 1;");
    let mut count = 0;
    while let Some(item) = scanner.next() {
        assert!(item.is_ok());
        count += 1;
    }
    assert_eq!(count, 4);
    assert!(scanner.next().is_none());
}

#[test]
fn tokenize_gives_all_tokens_or_the_first_error() {
    let tokens = tokenize("f(a) { return a; }").unwrap();
    assert_eq!(tokens.len(), 9);
    assert_eq!(tokens[8].token, Token::Delimiter(Delimiter::RBrace));
    assert_eq!(tokenize("a # b @"), Err(LexError::UnexpectedChar('#', at(3, 1, 4))));
    assert_eq!(tokenize(""), Ok(vec![]));
}

#[test]
fn default_location_and_span_are_unset() {
    assert_eq!(Location::default(), at(0, 0, 0));
    assert_eq!(Span::default(), Span { start: at(0, 0, 0), end: at(0, 0, 0) });
}

#[test]
fn sources_of_ordinary_length_fit() {
    assert!(fits(""));
    assert!(fits("main() { return 0; }"));
    assert!(fits(&"x ".repeat(10000)));
}

#[test]
fn carriage_return_adds_a_column_and_line_feed_a_line() {
    let items = scan("a\r\nb\n\n c");
    let starts: Vec<Location> = items.into_iter().map(|item| item.unwrap().span.start).collect();
    assert_eq!(starts, vec![at(0, 1, 1), at(3, 2, 1), at(7, 4, 2)]);
}

#[test]
fn comments_move_the_location() {
    let items = scan("/* one\n two */ x /**/y");
    let spans: Vec<Span> = items.into_iter().map(|item| item.unwrap().span).collect();
    assert_eq!(
        spans,
        vec![
            Span { start: at(15, 2, 9), end: at(16, 2, 10) },
            Span { start: at(21, 2, 15), end: at(22, 2, 16) },
        ]
    );
}
