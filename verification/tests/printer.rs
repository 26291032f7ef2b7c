use bfront::ast::pretty_printer::AstPrinter;
use bfront::ast::visitor::{walk_expr, walk_stmt, ExprVisitor, StmtVisitor};
use bfront::ast::{AutoDecl, Expr, Stmt};
use bfront::common::span::Span;
use bfront::lexer::scanner::tokenize;
use bfront::lexer::token::{Delimiter, Keyword, Operator, SpannedToken, Token};
use bfront::parser::Parser;

fn bare(token: Token) -> SpannedToken {
    SpannedToken { token, span: Span::default() }
}

fn name(text: &str) -> Expr {
    Expr::Variable { name: bare(Token::Identifier(text.to_string())) }
}

fn number(value: i64) -> Expr {
    Expr::Literal { value: bare(Token::Integer(value)) }
}

fn parsed_expression(source: &str) -> Expr {
    let tokens = tokenize(source).unwrap();
    Parser::new(&tokens).parse_expression(0).unwrap()
}

fn parsed_statement(source: &str) -> Stmt {
    let tokens = tokenize(source).unwrap();
    Parser::new(&tokens).parse_statement().unwrap()
}

#[test]
fn prints_tokens_as_they_are_written() {
    let mut printer = AstPrinter::new();
    let text = |printer: &mut AstPrinter, token: Token| {
        printer.print_expr(&Expr::Literal { value: bare(token) })
    };
    assert_eq!(text(&mut printer, Token::Integer(0)), "0");
    assert_eq!(text(&mut printer, Token::Integer(10)), "10");
    assert_eq!(text(&mut printer, Token::Integer(1234567890)), "1234567890");
    assert_eq!(text(&mut printer, Token::Integer(i64::MAX)), "9223372036854775807");
    assert_eq!(text(&mut printer, Token::Integer(-7)), "-7");
    assert_eq!(text(&mut printer, Token::Integer(i64::MIN)), "-9223372036854775808");
    assert_eq!(text(&mut printer, Token::CharLiteral(97)), "'97'");
    assert_eq!(text(&mut printer, Token::StringLiteral("a\nb\t*\"\0".to_string())), "\"a*nb*t***\"*0\"");
    assert_eq!(text(&mut printer, Token::Identifier("x1".to_string())), "x1");
    assert_eq!(text(&mut printer, Token::Keyword(Keyword::While)), "while");
    assert_eq!(text(&mut printer, Token::Operator(Operator::AssignPercent)), "=%");
    assert_eq!(text(&mut printer, Token::Operator(Operator::NotEqual)), "!=");
    assert_eq!(text(&mut printer, Token::Delimiter(Delimiter::QMark)), "?");
    assert_eq!(text(&mut printer, Token::EOF), "EOF");
}

#[test]
fn prints_expressions_as_lists() {
    let mut printer = AstPrinter::new();
    let sum = Expr::Binary {
        left: Box::new(number(1)),
        operator: bare(Token::Operator(Operator::Plus)),
        right: Box::new(number(2)),
    };
    assert_eq!(printer.print_expr(&sum), "(+ 1 2)");
    let call = Expr::Call {
        callee: Box::new(name("f")),
        arguments: vec![Box::new(sum), Box::new(name("x"))],
    };
    assert_eq!(printer.print_expr(&call), "(call f (+ 1 2) x)");
    assert_eq!(printer.print_expr(&parsed_expression("a[i]++")), "(++ post (get a i))");
    assert_eq!(printer.print_expr(&parsed_expression("a ? (b) : -c")), "(?: a (group b) (- c))");
    assert_eq!(printer.print_expr(&parsed_expression("a =& b ^ c")), "(=& a (^ b c))");
}

#[test]
fn parenthesize_lists_the_operands_after_the_head() {
    let mut printer = AstPrinter::new();
    let a = name("a");
    let b = number(2);
    assert_eq!(printer.parenthesize("op", &[&a, &b]), "(op a 2)");
    assert_eq!(printer.parenthesize("group", &[&a]), "(group a)");
    assert_eq!(printer.parenthesize("none", &[]), "(none)");
}

#[test]
fn prints_nested_statements_with_indentation() {
    let mut printer = AstPrinter::new();
    let source = "{ auto a, v[4]; extrn f; l: while (a) { if (a == 1) goto l; else a = f(a); } switch a { case 10 return; default return (a); } ; }";
    assert_eq!(
        printer.print_stmt(&parsed_statement(source)),
        "(block\n  (auto a v[4])\n  (extrn f)\n  (label l\n    (while a\n      (block\n        (if (== a 1)\n          (goto l)\n          (else\n            (expr (= a (call f a)))\n          )\n        )\n      )\n    )\n  )\n  (switch a\n    (case 10\n      (return)\n    )\n    (default\n      (return (group a))\n    )\n  )\n  (null)\n)"
    );
}

#[test]
fn prints_an_auto_statement_by_itself() {
    let mut printer = AstPrinter::new();
    let auto = Stmt::Auto {
        declarations: vec![
            AutoDecl { name: bare(Token::Identifier("a".to_string())), size: None },
            AutoDecl {
                name: bare(Token::Identifier("b".to_string())),
                size: Some(bare(Token::Integer(3))),
            },
        ],
    };
    assert_eq!(printer.print_stmt(&auto), "(auto a b[3])");
    assert_eq!(printer.print_stmt(&Stmt::Auto { declarations: vec![] }), "(auto )");
}

#[test]
fn prints_items_and_programs() {
    let tokens = tokenize("g[2] 1, 2, h; main(argc, argv) { extrn g; return g[0]; }").unwrap();
    let program = Parser::new(&tokens).parse_program().unwrap();
    let mut printer = AstPrinter::new();
    assert_eq!(printer.print_item(&program.top_level[0]), "(global g[2] 1 2 h)");
    assert_eq!(
        printer.print_item(&program.top_level[1]),
        "(fn main (argc argv)\n  (block\n    (extrn g)\n    (return (get g 0))\n  )\n)"
    );
    assert_eq!(
        printer.print_program(&program),
        "(global g[2] 1 2 h)\n\n(fn main (argc argv)\n  (block\n    (extrn g)\n    (return (get g 0))\n  )\n)"
    );
}

#[test]
fn printing_does_not_depend_on_spans() {
    let parsed = parsed_expression("a  +\n 1");
    let built = Expr::Binary {
        left: Box::new(name("a")),
        operator: bare(Token::Operator(Operator::Plus)),
        right: Box::new(number(1)),
    };
    assert_ne!(parsed, built);
    let mut printer = AstPrinter::new();
    assert_eq!(printer.print_expr(&parsed), printer.print_expr(&built));
}

#[test]
fn walking_hands_each_node_to_the_printer() {
    let mut printer = AstPrinter::new();
    let expr = parsed_expression("x = f(a, -b) ? c[1] : e++ & 2");
    assert_eq!(walk_expr(&mut printer, &expr), printer.print_expr(&expr));
    assert_eq!(
        walk_expr(&mut printer, &expr),
        "(= x (?: (call f a (- b)) (get c 1) (& (++ post e) 2)))"
    );
    for source in [
        "{ auto a; a; }",
        "extrn a;",
        "a;",
        "if (a) ; else ;",
        "if (a) ;",
        "while (a) ;",
        "switch a { case 10 ; default ; }",
        "case 20 ;",
        "l: ;",
        "goto l;",
        "return;",
        "return 1;",
        ";",
    ] {
        let stmt = parsed_statement(source);
        assert_eq!(walk_stmt(&mut printer, &stmt), printer.print_stmt(&stmt), "{}", source);
    }
    assert_eq!(printer.visit_null(), "(null)");
    assert_eq!(printer.visit_variable(&bare(Token::Identifier("v".to_string()))), "v");
    assert_eq!(printer.visit_default(&Stmt::Null), "(default\n  (null)\n)");
    let auto = parsed_statement("{ auto a[2]; }");
    match &auto {
        Stmt::Block { statements } => {
            assert_eq!(walk_stmt(&mut printer, &statements[0]), "(auto a[2])");
        }
        other => panic!("{:?}", other),
    }
}

fn printed(source: &str) -> String {
    let tokens = tokenize(source).unwrap();
    let program = Parser::new(&tokens).parse_program().unwrap();
    AstPrinter::new().print_program(&program)
}

#[test]
fn programs_of_one_shape_print_alike() {
    assert_eq!(
        printed("f(a,b){auto c[2];c=a-b-1;return(c);} g 1;"),
        printed("f ( a , b )\n{\n  auto c [ 2 ] ;\n  c = a - b - 1 ; /* gap */ return ( c ) ;\n}\n\ng   1 ;")
    );
    assert_eq!(printed("v[2] 010, 'a';"), printed("v [ 2 ]   8 ,\n'a' ;"));
}

#[test]
fn programs_of_different_shape_print_differently() {
    let texts = vec![
        printed("f() { a - b - c; }"),
        printed("f() { a - (b - c); }"),
        printed("f() { a = b = c; }"),
        printed("f() { -a; }"),
        printed("f() { a--; }"),
        printed("f() { --a; }"),
        printed("f() { post; }"),
        printed("f() { a & b; }"),
        printed("f() { &a; }"),
        printed("f() { a(b); }"),
        printed("f() { a[b]; }"),
        printed("f() { \"a b\"; }"),
        printed("f() { \"a\"; b; }"),
        printed("f() { 1; }"),
        printed("f() { '1'; }"),
        printed("f() { if (a) b; else c; }"),
        printed("f() { if (a) { b; c; } }"),
        printed("f() { if (a) b; c; }"),
        printed("f() { return; }"),
        printed("f() { return 0; }"),
        printed("f(a) { }"),
        printed("f(a, b) { }"),
        printed("f() { } a;"),
        printed("f, a;"),
        printed("f[1] 2, a;"),
        printed("f[1] 2; a;"),
        printed("f[1], a 2;"),
        printed("f 1; a 2;"),
    ];
    for i in 0..texts.len() {
        for j in 0..texts.len() {
            if i != j {
                assert_ne!(texts[i], texts[j], "{} and {}", i, j);
            }
        }
    }
}
