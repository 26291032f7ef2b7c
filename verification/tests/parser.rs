use bfront::ast::pretty_printer::AstPrinter;
use bfront::ast::{Expr, GlobalDecl, Program, Stmt, TopLevel};
use bfront::common::span::{Location, Span};
use bfront::lexer::scanner::tokenize;
use bfront::lexer::token::{Delimiter, Keyword, Operator, SpannedToken, Token};
use bfront::parser::precedence::Precedence;
use bfront::parser::{ParseError, Parser};

fn expression(source: &str) -> Result<Expr, ParseError> {
    let tokens = tokenize(source).unwrap();
    let mut parser = Parser::new(&tokens);
    parser.parse_expression(0)
}

fn statement(source: &str) -> Result<Stmt, ParseError> {
    let tokens = tokenize(source).unwrap();
    let mut parser = Parser::new(&tokens);
    parser.parse_statement()
}

fn program(source: &str) -> Result<Program, ParseError> {
    let tokens = tokenize(source).unwrap();
    let mut parser = Parser::new(&tokens);
    parser.parse_program()
}

fn expression_text(source: &str) -> String {
    AstPrinter::new().print_expr(&expression(source).unwrap())
}

fn statement_text(source: &str) -> String {
    AstPrinter::new().print_stmt(&statement(source).unwrap())
}

fn program_text(source: &str) -> String {
    AstPrinter::new().print_program(&program(source).unwrap())
}

fn token_at(source: &str, index: usize) -> SpannedToken {
    tokenize(source).unwrap()[index].clone()
}

fn end_marker() -> SpannedToken {
    SpannedToken { token: Token::EOF, span: Span::default() }
}

#[test]
fn assignment_groups_to_the_right() {
    let parsed = expression("a = b = c").unwrap();
    match &parsed {
        Expr::Assign { lvalue, operator, value } => {
            assert!(matches!(**lvalue, Expr::Variable { .. }));
            assert_eq!(operator.token, Token::Operator(Operator::Assign));
            match &**value {
                Expr::Assign { lvalue, value, .. } => {
                    assert!(matches!(**lvalue, Expr::Variable { .. }));
                    assert!(matches!(**value, Expr::Variable { .. }));
                }
                other => panic!("{:?}", other),
            }
        }
        other => panic!("{:?}", other),
    }
    assert_eq!(expression_text("a = b = c"), "(= a (= b c))");
    assert_eq!(expression_text("a =+ b =* c"), "(=+ a (=* b c))");
}

#[test]
fn subtraction_groups_to_the_left() {
    let parsed = expression("a - b - c").unwrap();
    match &parsed {
        Expr::Binary { left, operator, right } => {
            assert_eq!(operator.token, Token::Operator(Operator::Minus));
            assert!(matches!(**left, Expr::Binary { .. }));
            assert!(matches!(**right, Expr::Variable { .. }));
        }
        other => panic!("{:?}", other),
    }
    assert_eq!(expression_text("a - b - c"), "(- (- a b) c)");
    assert_eq!(expression_text("a / b * c % d"), "(% (* (/ a b) c) d)");
    assert_eq!(expression_text("a < b >= c"), "(>= (< a b) c)");
}

#[test]
fn multiplication_binds_tighter_than_addition() {
    let parsed = expression("a + b * c").unwrap();
    match &parsed {
        Expr::Binary { left, operator, right } => {
            assert_eq!(operator.token, Token::Operator(Operator::Plus));
            assert!(matches!(**left, Expr::Variable { .. }));
            match &**right {
                Expr::Binary { operator, .. } => {
                    assert_eq!(operator.token, Token::Operator(Operator::Star));
                }
                other => panic!("{:?}", other),
            }
        }
        other => panic!("{:?}", other),
    }
    assert_eq!(expression_text("a + b * c"), "(+ a (* b c))");
    assert_eq!(expression_text("a * b + c"), "(+ (* a b) c)");
}

#[test]
fn levels_from_loose_to_tight() {
    assert_eq!(
        expression_text("a = b ? c : d | e ^ f & g == h < i << j + k * l"),
        "(= a (?: b c (| d (^ e (& f (== g (< h (<< i (+ j (* k l))))))))))"
    );
    assert_eq!(expression_text("a * b + c << d"), "(<< (+ (* a b) c) d)");
}

#[test]
fn only_an_lvalue_is_assigned_to() {
    match expression("1 = a") {
        Err(ParseError::RValueAssign(operator)) => {
            assert_eq!(operator, token_at("1 = a", 1));
        }
        other => panic!("{:?}", other),
    }
    assert_eq!(expression_text("a[0] = 1"), "(= (get a 0) 1)");
    assert_eq!(expression_text("*p = 1"), "(= (* p) 1)");
    assert!(matches!(expression("a + b = c"), Err(ParseError::RValueAssign(_))));
    assert!(matches!(expression("(a) = 1"), Err(ParseError::RValueAssign(_))));
    assert!(matches!(expression("-a = 1"), Err(ParseError::RValueAssign(_))));
    assert!(matches!(expression("f() =+ 1"), Err(ParseError::RValueAssign(_))));
    assert!(matches!(expression("a++ = 1"), Err(ParseError::RValueAssign(_))));
}

#[test]
fn right_operand_is_read_before_the_lvalue_is_asked_for() {
    assert_eq!(expression("1 = )"), Err(ParseError::UnknownToken(token_at("1 = )", 2))));
    assert_eq!(expression("1 ="), Err(ParseError::UnexpectedEOF));
}

#[test]
fn auto_stands_first_in_a_block() {
    match statement("{ x = 1; auto a; }") {
        Err(ParseError::AutoRedecl(token)) => {
            assert_eq!(token, token_at("{ x = 1; auto a; }", 5));
        }
        other => panic!("{:?}", other),
    }
    let block = statement("{ auto a; x = 1; }").unwrap();
    match &block {
        Stmt::Block { statements } => {
            assert_eq!(statements.len(), 2);
            assert!(matches!(statements[0], Stmt::Auto { .. }));
            assert!(matches!(statements[1], Stmt::Expression { .. }));
        }
        other => panic!("{:?}", other),
    }
    assert!(matches!(statement("{ auto a; auto b; }"), Err(ParseError::AutoRedecl(_))));
    assert!(matches!(statement("{ ; auto b; }"), Err(ParseError::AutoRedecl(_))));
    assert!(statement("{ { auto a; } { auto b; } }").is_ok());
}

#[test]
fn auto_declarations() {
    assert_eq!(statement_text("{ auto a, b[10], c[]; }"), "(block\n  (auto a b[10] c)\n)");
    match statement("{ auto a, b[10]; }").unwrap() {
        Stmt::Block { statements } => match &statements[0] {
            Stmt::Auto { declarations } => {
                assert_eq!(declarations.len(), 2);
                assert_eq!(declarations[0].name.token, Token::Identifier("a".to_string()));
                assert_eq!(declarations[0].size, None);
                assert_eq!(declarations[1].size.as_ref().unwrap().token, Token::Integer(10));
            }
            other => panic!("{:?}", other),
        },
        other => panic!("{:?}", other),
    }
    assert!(matches!(statement("{ auto a b; }"), Err(ParseError::UnexpectedToken(_))));
    assert!(matches!(statement("{ auto 1; }"), Err(ParseError::UnknownToken(_))));
    assert!(matches!(statement("{ auto a[1; }"), Err(ParseError::UnexpectedToken(_))));
    assert_eq!(statement("{ auto"), Err(ParseError::UnexpectedEOF));
    assert!(matches!(statement("if (a) auto b;"), Err(ParseError::UnknownToken(_))));
}

#[test]
fn parse_auto_requires_its_keyword() {
    let tokens = tokenize("a;").unwrap();
    let mut parser = Parser::new(&tokens);
    match parser.parse_auto() {
        Err(ParseError::UnexpectedToken(expected)) => {
            assert_eq!(expected.expected, Token::Keyword(Keyword::Auto));
            assert_eq!(expected.found, tokens[0]);
        }
        other => panic!("{:?}", other),
    }
    let tokens = tokenize("auto x;").unwrap();
    let mut parser = Parser::new(&tokens);
    assert!(matches!(parser.parse_auto(), Ok(Stmt::Auto { .. })));
    assert_eq!(parser.position, 3);
}

#[test]
fn global_with_size_and_initializers() {
    let parsed = program("a[3] 1, 2;").unwrap();
    assert_eq!(parsed.top_level.len(), 1);
    match &parsed.top_level[0] {
        TopLevel::Global(decls) => {
            assert_eq!(decls.len(), 1);
            assert_eq!(
                decls[0],
                GlobalDecl {
                    name: token_at("a[3] 1, 2;", 0),
                    size: Some(token_at("a[3] 1, 2;", 2)),
                    initializer: Some(vec![
                        token_at("a[3] 1, 2;", 4),
                        token_at("a[3] 1, 2;", 6),
                    ]),
                }
            );
            assert_eq!(decls[0].size.as_ref().unwrap().token, Token::Integer(3));
        }
        other => panic!("{:?}", other),
    }
    assert_eq!(program_text("a[3] 1, 2;"), "(global a[3] 1 2)");
}

#[test]
fn initializers_without_a_size_are_refused() {
    match program("a[] 1;") {
        Err(ParseError::UnspecifiedArraySizeInitialization(token)) => {
            assert_eq!(token, token_at("a[] 1;", 3));
        }
        other => panic!("{:?}", other),
    }
}

#[test]
fn global_declarations() {
    assert_eq!(program_text("a;"), "(global a)");
    assert_eq!(program_text("a 1;"), "(global a 1)");
    assert_eq!(program_text("a 'x';"), "(global a '120')");
    assert_eq!(program_text("a \"s\";"), "(global a \"s\")");
    assert_eq!(program_text("a, b[10], c 5;"), "(global a b[10] c 5)");
    assert_eq!(program_text("a[];"), "(global a)");
    assert_eq!(program_text("v[2] 1, 2, w;"), "(global v[2] 1 2 w)");
    assert_eq!(program_text("v[2] 1, w[3] 'a', \"b\", x;"), "(global v[2] 1 w[3] '97' \"b\" x)");
    match program("v[2] 1, w;").unwrap().top_level.remove(0) {
        TopLevel::Global(decls) => {
            assert_eq!(decls.len(), 2);
            assert_eq!(decls[0].initializer.as_ref().unwrap().len(), 1);
            assert_eq!(decls[1].initializer, None);
            assert_eq!(decls[1].size, None);
        }
        other => panic!("{:?}", other),
    }
}

#[test]
fn global_declaration_errors() {
    assert_eq!(program("a +;"), Err(ParseError::UnknownToken(token_at("a +;", 1))));
    assert_eq!(program("a[3] 1, +;"), Err(ParseError::UnknownToken(token_at("a[3] 1, +;", 6))));
    assert_eq!(program("a[3] 1 2;"), Err(ParseError::UnknownToken(token_at("a[3] 1 2;", 5))));
    assert_eq!(program("a[3] x;"), Err(ParseError::UnknownToken(token_at("a[3] x;", 4))));
    assert_eq!(program("a[3] 1,"), Err(ParseError::UnknownToken(end_marker())));
    assert_eq!(program("a 1 2;").is_err(), true);
    assert!(matches!(program("a[x];"), Err(ParseError::UnexpectedToken(_))));
    assert!(matches!(program("a, 1;"), Err(ParseError::UnknownToken(_))));
    assert_eq!(program("a,"), Err(ParseError::UnexpectedEOF));
    assert_eq!(program("1;"), Err(ParseError::UnknownToken(token_at("1;", 0))));
    assert_eq!(program("auto x;"), Err(ParseError::UnknownToken(token_at("auto x;", 0))));
    assert_eq!(program("a"), Err(ParseError::UnknownToken(end_marker())));
}

#[test]
fn functions() {
    assert_eq!(program_text("main() { }"), "(fn main ()\n  (block\n  )\n)");
    assert_eq!(
        program_text("add(a, b) { return a + b; }"),
        "(fn add (a b)\n  (block\n    (return (+ a b))\n  )\n)"
    );
    match program("f(x) { }").unwrap().top_level.remove(0) {
        TopLevel::Function(function) => {
            assert_eq!(function.name.token, Token::Identifier("f".to_string()));
            assert_eq!(function.params.len(), 1);
            assert!(matches!(function.body, Stmt::Block { .. }));
        }
        other => panic!("{:?}", other),
    }
}

#[test]
fn function_errors() {
    match program("f() return;") {
        Err(ParseError::UnexpectedToken(expected)) => {
            assert_eq!(expected.expected, Token::Delimiter(Delimiter::LBrace));
            assert_eq!(expected.found.token, Token::Keyword(Keyword::Return));
        }
        other => panic!("{:?}", other),
    }
    assert!(matches!(program("f(1) { }"), Err(ParseError::UnknownToken(_))));
    assert!(matches!(program("f(a b) { }"), Err(ParseError::UnexpectedToken(_))));
    assert!(matches!(program("f(a,) { }"), Err(ParseError::UnknownToken(_))));
    assert_eq!(program("f(a"), {
        let expected = bfront::parser::Expected {
            expected: Token::Delimiter(Delimiter::RParen),
            found: end_marker(),
        };
        Err(ParseError::UnexpectedToken(expected))
    });
    assert_eq!(program("f("), Err(ParseError::UnexpectedEOF));
    assert_eq!(program("f() {"), Err(ParseError::UnexpectedEOF));
}

#[test]
fn items_keep_the_order_of_the_source() {
    let parsed = program("a; f() { } b 1; g(x) { x; }").unwrap();
    assert_eq!(parsed.top_level.len(), 4);
    assert!(matches!(parsed.top_level[0], TopLevel::Global(_)));
    assert!(matches!(parsed.top_level[1], TopLevel::Function(_)));
    assert!(matches!(parsed.top_level[2], TopLevel::Global(_)));
    assert!(matches!(parsed.top_level[3], TopLevel::Function(_)));
    assert_eq!(
        program_text("a; f() { } b 1;"),
        "(global a)\n\n(fn f ()\n  (block\n  )\n)\n\n(global b 1)"
    );
    assert_eq!(program("").unwrap(), Program { top_level: vec![] });
}

#[test]
fn the_first_error_ends_the_parse() {
    assert_eq!(
        program("a; 1; b +;"),
        Err(ParseError::UnknownToken(token_at("a; 1; b +;", 2)))
    );
}

#[test]
fn conditional_groups_to_the_right() {
    assert_eq!(expression_text("a ? b : c ? d : e"), "(?: a b (?: c d e))");
    assert_eq!(expression_text("a ? b ? c : d : e"), "(?: a (?: b c d) e)");
    assert_eq!(expression_text("a + b ? c : d"), "(?: (+ a b) c d)");
    match expression("a ? b") {
        Err(ParseError::UnexpectedToken(expected)) => {
            assert_eq!(expected.expected, Token::Delimiter(Delimiter::Colon));
            assert_eq!(expected.found, end_marker());
        }
        other => panic!("{:?}", other),
    }
}

#[test]
fn prefix_and_postfix_operators() {
    assert_eq!(expression_text("-a++"), "(- (++ post a))");
    assert_eq!(expression_text("!a * b"), "(* (! a) b)");
    assert_eq!(expression_text("- - a"), "(- (- a))");
    assert_eq!(expression_text("++a"), "(++ a)");
    assert_eq!(expression_text("a-- - --b"), "(- (-- post a) (-- b))");
    assert_eq!(expression_text("&a[1]"), "(& (get a 1))");
    assert_eq!(expression_text("*p++"), "(* (++ post p))");
    assert_eq!(expression_text("~a + +b"), "(+ (~ a) (+ b))");
    assert_eq!(expression("-"), Err(ParseError::UnexpectedEOF));
}

#[test]
fn calls_and_indexing() {
    assert_eq!(expression_text("f()"), "(call f)");
    assert_eq!(expression_text("f(a)"), "(call f a)");
    assert_eq!(expression_text("f(a, b + 1)(c)"), "(call (call f a (+ b 1)) c)");
    assert_eq!(expression_text("a[i][j]"), "(get (get a i) j)");
    assert_eq!(expression_text("f(x = 1, y ? 2 : 3)"), "(call f (= x 1) (?: y 2 3))");
    assert_eq!(expression_text("a[i = 1]"), "(get a (= i 1))");
    match expression("f(a, b").unwrap_err() {
        ParseError::UnexpectedToken(expected) => {
            assert_eq!(expected.expected, Token::Delimiter(Delimiter::RParen));
        }
        other => panic!("{:?}", other),
    }
    assert!(matches!(expression("f(a,)"), Err(ParseError::UnknownToken(_))));
    match expression("a[1").unwrap_err() {
        ParseError::UnexpectedToken(expected) => {
            assert_eq!(expected.expected, Token::Delimiter(Delimiter::RBrack));
        }
        other => panic!("{:?}", other),
    }
}

#[test]
fn grouping_and_bitwise_operators() {
    assert_eq!(expression_text("(a + b) * c"), "(* (group (+ a b)) c)");
    assert_eq!(expression_text("a & b | c"), "(| (& a b) c)");
    assert_eq!(expression_text("a | b & c"), "(| a (& b c))");
    assert_eq!(expression_text("a << 1 >> 2"), "(>> (<< a 1) 2)");
    assert!(matches!(expression("a & b").unwrap(), Expr::Bitwise { .. }));
    assert!(matches!(expression("a << b").unwrap(), Expr::Bitwise { .. }));
    assert!(matches!(expression("a == b").unwrap(), Expr::Binary { .. }));
    assert!(matches!(expression("(a)").unwrap(), Expr::Grouping { .. }));
    match expression("(a").unwrap_err() {
        ParseError::UnexpectedToken(expected) => {
            assert_eq!(expected.expected, Token::Delimiter(Delimiter::RParen));
        }
        other => panic!("{:?}", other),
    }
}

#[test]
fn literals_and_names_are_primaries() {
    assert!(matches!(expression("1").unwrap(), Expr::Literal { .. }));
    assert!(matches!(expression("'a'").unwrap(), Expr::Literal { .. }));
    assert!(matches!(expression("\"s\"").unwrap(), Expr::Literal { .. }));
    assert!(matches!(expression("x").unwrap(), Expr::Variable { .. }));
    assert_eq!(expression_text("\"a*n\" + 'b' + 07"), "(+ (+ \"a*n\" '98') 7)");
}

#[test]
fn expression_ends_before_a_token_that_does_not_continue_it() {
    let tokens = tokenize("a + b ; c").unwrap();
    let mut parser = Parser::new(&tokens);
    assert!(parser.parse_expression(0).is_ok());
    assert_eq!(parser.position, 3);
    let tokens = tokenize("a b").unwrap();
    let mut parser = Parser::new(&tokens);
    assert!(matches!(parser.parse_expression(0), Ok(Expr::Variable { .. })));
    assert_eq!(parser.position, 1);
    let tokens = tokenize("a + b * c - d").unwrap();
    let mut parser = Parser::new(&tokens);
    let additive = Precedence::Addition.limit();
    let parsed = parser.parse_expression(additive).unwrap();
    assert_eq!(AstPrinter::new().print_expr(&parsed), "a");
    assert_eq!(parser.position, 1);
    let tokens = tokenize("a * b + c").unwrap();
    let mut parser = Parser::new(&tokens);
    let parsed = parser.parse_expression(additive).unwrap();
    assert_eq!(AstPrinter::new().print_expr(&parsed), "(* a b)");
    assert_eq!(parser.position, 3);
}

#[test]
fn tokens_that_start_no_expression() {
    assert_eq!(expression(")"), Err(ParseError::UnknownToken(token_at(")", 0))));
    assert_eq!(expression("a + ;"), Err(ParseError::UnknownToken(token_at("a + ;", 2))));
    assert_eq!(expression("while"), Err(ParseError::UnknownToken(token_at("while", 0))));
    assert_eq!(expression(">> a"), Err(ParseError::UnknownToken(token_at(">> a", 0))));
    assert_eq!(expression(""), Err(ParseError::UnexpectedEOF));
    assert_eq!(expression("a +"), Err(ParseError::UnexpectedEOF));
}

#[test]
fn binding_powers() {
    assert_eq!(Precedence::Lowest.bp(), (0, 0));
    assert_eq!(Precedence::Assignment.bp(), (1, 1));
    assert_eq!(Precedence::Ternary.bp(), (2, 2));
    assert_eq!(Precedence::BitOr.bp(), (4, 3));
    assert_eq!(Precedence::BitXor.bp(), (6, 5));
    assert_eq!(Precedence::BitAnd.bp(), (8, 7));
    assert_eq!(Precedence::Equality.bp(), (10, 9));
    assert_eq!(Precedence::Comparison.bp(), (12, 11));
    assert_eq!(Precedence::Shift.bp(), (14, 13));
    assert_eq!(Precedence::Addition.bp(), (16, 15));
    assert_eq!(Precedence::Multiplication.bp(), (18, 17));
    assert_eq!(Precedence::Unary.bp(), (19, 19));
    assert_eq!(Precedence::Postfix.bp(), (21, 20));
}

#[test]
fn limits_of_the_right_operand() {
    assert_eq!(Precedence::Lowest.limit(), 0);
    assert_eq!(Precedence::Assignment.limit(), 0);
    assert_eq!(Precedence::Ternary.limit(), 1);
    assert_eq!(Precedence::BitOr.limit(), 4);
    assert_eq!(Precedence::BitXor.limit(), 6);
    assert_eq!(Precedence::BitAnd.limit(), 8);
    assert_eq!(Precedence::Equality.limit(), 10);
    assert_eq!(Precedence::Comparison.limit(), 12);
    assert_eq!(Precedence::Shift.limit(), 14);
    assert_eq!(Precedence::Addition.limit(), 16);
    assert_eq!(Precedence::Multiplication.limit(), 18);
    assert_eq!(Precedence::Unary.limit(), 19);
    assert_eq!(Precedence::Postfix.limit(), 20);
}

#[test]
fn simple_statements() {
    assert_eq!(statement_text(";"), "(null)");
    assert_eq!(statement_text("x = 1;"), "(expr (= x 1))");
    assert_eq!(statement_text("return;"), "(return)");
    assert_eq!(statement_text("return (x + 1);"), "(return (group (+ x 1)))");
    assert_eq!(statement_text("return x;"), "(return x)");
    assert_eq!(statement_text("goto done;"), "(goto done)");
    assert_eq!(statement_text("extrn putchar, getchar;"), "(extrn putchar getchar)");
    assert_eq!(statement_text("{ }"), "(block\n)");
    assert_eq!(statement_text("{ ; x; }"), "(block\n  (null)\n  (expr x)\n)");
}

#[test]
fn statements_end_with_a_semicolon() {
    match statement("x = 1") {
        Err(ParseError::UnexpectedToken(expected)) => {
            assert_eq!(expected.expected, Token::Delimiter(Delimiter::Semicolon));
            assert_eq!(expected.found, end_marker());
        }
        other => panic!("{:?}", other),
    }
    assert!(matches!(statement("return x }"), Err(ParseError::UnexpectedToken(_))));
    assert!(matches!(statement("goto a b;"), Err(ParseError::UnexpectedToken(_))));
    assert!(matches!(statement("extrn a b;"), Err(ParseError::UnexpectedToken(_))));
    assert!(matches!(statement("extrn 1;"), Err(ParseError::UnknownToken(_))));
    assert_eq!(statement("extrn"), Err(ParseError::UnexpectedEOF));
    assert_eq!(statement(""), Err(ParseError::UnexpectedEOF));
    assert_eq!(statement("{ x;"), Err(ParseError::UnexpectedEOF));
}

#[test]
fn return_and_goto_consume_their_semicolon() {
    let tokens = tokenize("{ return; }").unwrap();
    let mut parser = Parser::new(&tokens);
    match parser.parse_statement().unwrap() {
        Stmt::Block { statements } => {
            assert_eq!(statements, vec![Stmt::Return { value: None }]);
        }
        other => panic!("{:?}", other),
    }
    assert_eq!(parser.position, 4);
}

#[test]
fn if_statements() {
    assert_eq!(statement_text("if (a) b;"), "(if a\n  (expr b)\n)");
    assert_eq!(
        statement_text("if (a) b; else c;"),
        "(if a\n  (expr b)\n  (else\n    (expr c)\n  )\n)"
    );
    assert_eq!(
        statement_text("if (a) return; else return 1;"),
        "(if a\n  (return)\n  (else\n    (return 1)\n  )\n)"
    );
    assert!(matches!(statement("if a) b;"), Err(ParseError::UnexpectedToken(_))));
    assert!(matches!(statement("if (a b;"), Err(ParseError::UnexpectedToken(_))));
    assert_eq!(statement("if (a)"), Err(ParseError::UnexpectedEOF));
    assert_eq!(statement("if (a) b; else"), Err(ParseError::UnexpectedEOF));
}

#[test]
fn else_belongs_to_the_nearest_if() {
    match statement("if (a) if (b) c; else d;").unwrap() {
        Stmt::If { then_branch, else_branch, .. } => {
            assert_eq!(else_branch, None);
            match *then_branch {
                Stmt::If { else_branch, .. } => assert!(else_branch.is_some()),
                other => panic!("{:?}", other),
            }
        }
        other => panic!("{:?}", other),
    }
}

#[test]
fn while_statements() {
    assert_eq!(statement_text("while (i < n) i++;"), "(while (< i n)\n  (expr (++ post i))\n)");
    assert_eq!(
        statement_text("while (a) { b; }"),
        "(while a\n  (block\n    (expr b)\n  )\n)"
    );
    assert!(matches!(statement("while a b;"), Err(ParseError::UnexpectedToken(_))));
    assert!(matches!(statement("while (a b;"), Err(ParseError::UnexpectedToken(_))));
}

#[test]
fn switch_statements() {
    assert_eq!(
        statement_text("switch x { case 10 a; case 'b' { c; } default d; }"),
        "(switch x\n  (case 10\n    (expr a)\n  )\n  (case '98'\n    (block\n      (expr c)\n    )\n  )\n  (default\n    (expr d)\n  )\n)"
    );
    assert_eq!(statement_text("switch (x) { }"), "(switch (group x)\n)");
    match statement("switch x { case 10 ; case 20 ; }").unwrap() {
        Stmt::Switch { cases, .. } => {
            assert_eq!(cases.len(), 2);
            assert!(matches!(cases[0], Stmt::Case { .. }));
        }
        other => panic!("{:?}", other),
    }
    assert_eq!(
        statement("switch x { a; }"),
        Err(ParseError::UnknownToken(token_at("switch x { a; }", 3)))
    );
    assert_eq!(
        statement("switch x { case y a; }"),
        Err(ParseError::UnknownToken(token_at("switch x { case y a; }", 4)))
    );
    assert!(matches!(statement("switch x case 10 a;"), Err(ParseError::UnexpectedToken(_))));
    assert_eq!(statement("switch x { case 10 a;"), Err(ParseError::UnknownToken(end_marker())));
    assert_eq!(statement("switch x { case"), Err(ParseError::UnexpectedEOF));
}

#[test]
fn case_is_a_statement_and_default_is_not() {
    assert_eq!(statement_text("case 10 x;"), "(case 10\n  (expr x)\n)");
    assert_eq!(
        statement("default x;"),
        Err(ParseError::UnknownToken(token_at("default x;", 0)))
    );
}

#[test]
fn labels() {
    assert_eq!(statement_text("loop: x = x + 1;"), "(label loop\n  (expr (= x (+ x 1)))\n)");
    assert_eq!(statement_text("a: b: ;"), "(label a\n  (label b\n    (null)\n  )\n)");
    assert_eq!(statement_text("a ? b : c;"), "(expr (?: a b c))");
    assert_eq!(statement("a:"), Err(ParseError::UnexpectedEOF));
}

#[test]
fn sub_parsers_start_after_their_keyword() {
    let tokens = tokenize("(a) b; else c;").unwrap();
    assert!(matches!(Parser::new(&tokens).parse_if(), Ok(Stmt::If { .. })));
    let tokens = tokenize("(a) b;").unwrap();
    assert!(matches!(Parser::new(&tokens).parse_while(), Ok(Stmt::While { .. })));
    let tokens = tokenize("x { }").unwrap();
    assert!(matches!(Parser::new(&tokens).parse_switch(), Ok(Stmt::Switch { .. })));
    let tokens = tokenize("1 ;").unwrap();
    assert!(matches!(Parser::new(&tokens).parse_case(), Ok(Stmt::Case { .. })));
    let tokens = tokenize("l;").unwrap();
    assert!(matches!(Parser::new(&tokens).parse_goto(), Ok(Stmt::Goto { .. })));
    let tokens = tokenize(";").unwrap();
    assert_eq!(Parser::new(&tokens).parse_return(), Ok(Stmt::Return { value: None }));
    let tokens = tokenize("a, b;").unwrap();
    assert!(matches!(Parser::new(&tokens).parse_extrn(), Ok(Stmt::Extrn { .. })));
    let tokens = tokenize("{ }").unwrap();
    assert!(matches!(Parser::new(&tokens).parse_block(), Ok(Stmt::Block { .. })));
    let tokens = tokenize("f() { }").unwrap();
    assert!(matches!(Parser::new(&tokens).parse_top_level(), Ok(TopLevel::Function(_))));
}

#[test]
fn parse_stops_at_the_end_marker() {
    let mut tokens = tokenize("a;").unwrap();
    let end = tokens[1].span.end;
    tokens.push(SpannedToken { token: Token::EOF, span: Span { start: end, end } });
    tokens.extend(tokenize("b;").unwrap());
    let mut parser = Parser::new(&tokens);
    let parsed = parser.parse_program().unwrap();
    assert_eq!(parsed.top_level.len(), 1);
    assert_eq!(parser.position, 2);
    let mut parser = Parser::new(&tokens);
    parser.position = 2;
    assert_eq!(parser.parse_statement(), Err(ParseError::UnexpectedEOF));
    assert_eq!(parser.position, 2);
    let marked = vec![tokens[0].clone(), tokens[2].clone(), tokens[3].clone()];
    match Parser::new(&marked).parse_statement() {
        Err(ParseError::UnexpectedToken(expected)) => {
            assert_eq!(expected.expected, Token::Delimiter(Delimiter::Semicolon));
            assert_eq!(expected.found.token, Token::EOF);
            assert_eq!(expected.found.span.start, end);
        }
        other => panic!("{:?}", other),
    }
}

#[test]
fn an_empty_buffer_is_an_empty_program() {
    let tokens: Vec<SpannedToken> = Vec::new();
    let mut parser = Parser::new(&tokens);
    assert_eq!(parser.parse_program(), Ok(Program { top_level: vec![] }));
    assert_eq!(parser.parse_expression(0), Err(ParseError::UnexpectedEOF));
    assert_eq!(Location::default(), end_marker().span.start);
}

#[test]
fn a_whole_program() {
    let source = "/* sums the numbers below n */\n\
        total 0;\n\
        limits[2] 1, 100;\n\
        sum(n) {\n\
            auto i, acc;\n\
            extrn total;\n\
            acc = i = 0;\n\
            while (i < n) {\n\
                acc =+ i++;\n\
                if (acc >= limits[1]) goto out;\n\
            }\n\
            out: total = acc;\n\
            return (acc);\n\
        }\n";
    assert_eq!(
        program_text(source),
        "(global total 0)\n\n(global limits[2] 1 100)\n\n(fn sum (n)\n  (block\n    (auto i acc)\n    (extrn total)\n    (expr (= acc (= i 0)))\n    (while (< i n)\n      (block\n        (expr (=+ acc (++ post i)))\n        (if (>= acc (get limits 1))\n          (goto out)\n        )\n      )\n    )\n    (label out\n      (expr (= total acc))\n    )\n    (return (group acc))\n  )\n)"
    );
}

#[test]
fn a_copy_of_a_tree_is_equal_to_it() {
    let parsed = program("g[2] 1, 2; f(a) { auto b[3]; if (a) b = f(a - 1, \"s\"); else return; }").unwrap();
    let copy = parsed.clone();
    assert_eq!(copy, parsed);
    let stmt = statement("switch a { case 10 { x; } default ; }").unwrap();
    assert_eq!(stmt.clone(), stmt);
    let expr = expression("a ? f(b, c)[d] : -e++").unwrap();
    assert_eq!(expr.clone(), expr);
}
