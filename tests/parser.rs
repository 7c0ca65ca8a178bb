use rust_interpreter::ast::{Expression, PrefixOperator, Program, Statement};
use rust_interpreter::grammar::{Expected, Precedence};
use rust_interpreter::lexer::Lexer;
use rust_interpreter::parser::{ParseError, Parser};
use rust_interpreter::token::Token;

#[test]
fn test_parse_prefix() {
    let tests = vec![
        ("-15;", "-", "15"),
        ("!5;", "!", "5"),
    ];

    for test in tests {
        let lexer = Lexer::new(test.0);
        let mut parser = Parser::new(lexer);
        let program = Program::parse(&mut parser).unwrap();
        assert!(parser.errors().is_empty());
        assert_eq!(program.statements.len(), 1);
        let stmt = &program.statements[0];
        match stmt {
            Statement::Expression(es) => {
                assert_eq!(es.expression.token_literal(), test.1);
                match &es.expression {
                    Expression::Prefix(pe) => {
                        assert_eq!(pe.operator.token_literal(), test.1);
                        assert_eq!(pe.right.token_literal(), test.2);
                    },
                    _ => panic!("Expected prefix expression, got {}", es.expression.token_literal())
                }
            },
            _ => panic!("Expected ExpressionStatement, got {:?}", stmt)
        }
    }
}

fn parse(source: &str) -> Result<Program<'_>, ParseError<'_>> {
    let mut parser = Parser::new(Lexer::new(source));
    Program::parse(&mut parser)
}

fn render(source: &str) -> String {
    parse(source).unwrap().to_string()
}

#[test]
fn minus_fifteen_is_a_prefix_node() {
    let program = parse("-15;").unwrap();
    assert_eq!(program.statements.len(), 1);
    match &program.statements[0] {
        Statement::Expression(es) => match &es.expression {
            Expression::Prefix(pe) => {
                assert_eq!(pe.operator, PrefixOperator::Minus);
                assert!(matches!(*pe.right, Expression::IntegerLiteral(Token::Integer("15"))));
                assert_eq!(pe.token_literal(), "-");
            },
            other => panic!("unexpected {:?}", other),
        },
        other => panic!("unexpected {:?}", other),
    }
}

#[test]
fn bang_five_is_a_prefix_node() {
    let program = parse("!5;").unwrap();
    assert_eq!(program.statements.len(), 1);
    match &program.statements[0] {
        Statement::Expression(es) => match &es.expression {
            Expression::Prefix(pe) => {
                assert_eq!(pe.operator, PrefixOperator::Not);
                assert!(matches!(*pe.right, Expression::IntegerLiteral(Token::Integer("5"))));
            },
            other => panic!("unexpected {:?}", other),
        },
        other => panic!("unexpected {:?}", other),
    }
}

#[test]
fn prefix_binds_tighter_than_product() {
    assert_eq!(render("-a * b"), render("(-a) * b"));
    assert_eq!(render("-a * b"), "((-a) * b)");
}

#[test]
fn product_binds_tighter_than_sum() {
    assert_eq!(render("a + b * c"), render("a + (b * c)"));
    assert_eq!(render("a + b * c"), "(a + (b * c))");
    assert_ne!(render("a + b * c"), render("(a + b) * c"));
}

#[test]
fn same_precedence_groups_left() {
    assert_eq!(render("a - b - c"), "((a - b) - c)");
    assert_eq!(render("a * b / c"), "((a * b) / c)");
}

#[test]
fn precedence_table_end_to_end() {
    assert_eq!(render("!-a"), "(!(-a))");
    assert_eq!(render("a + b / c - d"), "((a + (b / c)) - d)");
    assert_eq!(render("5 > 4 == 3 < 4"), "((5 > 4) == (3 < 4))");
    assert_eq!(render("3 + 4 * 5 == 3 * 1 + 4 * 5"), "((3 + (4 * 5)) == ((3 * 1) + (4 * 5)))");
    assert_eq!(render("-(5 + 5)"), "(-(5 + 5))");
    assert_eq!(render("!(true == true)"), "(!(true == true))");
    assert_eq!(render("x != y"), "(x != y)");
}

#[test]
fn asterisk_cannot_start_an_expression() {
    match parse("*5;") {
        Err(ParseError::UnexpectedPrefixToken(t)) => assert_eq!(t, Token::Asterisk),
        other => panic!("unexpected {:?}", other),
    }
}

#[test]
fn unexpected_prefix_is_recorded() {
    let mut parser = Parser::new(Lexer::new("x; ) y"));
    assert!(Program::parse(&mut parser).is_err());
    assert_eq!(parser.errors().len(), 1);
    assert!(matches!(parser.errors()[0], ParseError::UnexpectedPrefixToken(Token::RParen)));
}

#[test]
fn illegal_token_is_an_unexpected_prefix() {
    assert!(matches!(parse("@"), Err(ParseError::UnexpectedPrefixToken(Token::Illegal))));
    assert!(matches!(parse("-"), Err(ParseError::UnexpectedPrefixToken(Token::Eof))));
}

#[test]
fn trailing_semicolon_is_optional() {
    for source in ["5", "5;"] {
        let program = parse(source).unwrap();
        assert_eq!(program.statements.len(), 1);
        match &program.statements[0] {
            Statement::Expression(es) => assert_eq!(es.token_literal(), "5"),
            other => panic!("unexpected {:?}", other),
        }
    }
    let program = parse("a b; c").unwrap();
    assert_eq!(program.statements.len(), 3);
}

#[test]
fn let_and_return_statements() {
    let program = parse("let x = 1 + 2; return x").unwrap();
    assert_eq!(program.statements.len(), 2);
    assert_eq!(program.statements[0].to_string(), "let x = (1 + 2);");
    assert_eq!(program.statements[1].to_string(), "return x;");
    assert_eq!(program.statements[0].token_literal(), "let");
    assert_eq!(program.to_string(), "let x = (1 + 2);return x;");
}

#[test]
fn let_requires_identifier_and_assign() {
    assert!(matches!(
        parse("let 5 = 1;"),
        Err(ParseError::UnexpectedTokenExpected(Expected::Identifier, Token::Integer("5")))
    ));
    assert!(matches!(
        parse("let x 1;"),
        Err(ParseError::UnexpectedTokenExpected(Expected::Assign, Token::Integer("1")))
    ));
}

#[test]
fn group_requires_closing_paren() {
    assert!(matches!(
        parse("(1 + 2;"),
        Err(ParseError::UnexpectedTokenExpected(Expected::RParen, Token::Semicolon))
    ));
}

#[test]
fn identifier_literal_is_source_text() {
    let source = "foobar;";
    let program = parse(source).unwrap();
    match &program.statements[0] {
        Statement::Expression(es) => {
            assert_eq!(es.expression.token_literal(), &source[0..6]);
            assert_eq!(es.expression.to_string(), "foobar");
        },
        other => panic!("unexpected {:?}", other),
    }
}

#[test]
fn empty_program_has_no_statements() {
    assert_eq!(parse("").unwrap().statements.len(), 0);
    assert_eq!(parse("   ").unwrap().statements.len(), 0);
}

#[test]
fn parse_expression_respects_minimum_precedence() {
    let mut parser = Parser::new(Lexer::new("a + b * c"));
    let e = parser.parse_expression(Precedence::Sum).unwrap();
    assert_eq!(e.to_string(), "a");
    assert!(parser.peek_is(Token::Plus));
    assert_eq!(parser.current_token(), Token::Identifier("a"));
}

#[test]
fn error_messages_name_the_token() {
    assert_eq!(parse("*5;").unwrap_err().message(), "no prefix parse function for *");
    assert_eq!(parse("(a").unwrap_err().message(), "expected ), got EOF");
    assert_eq!(parse("let = 1").unwrap_err().message(), "expected identifier, got =");
    assert_eq!(parse("let y y").unwrap_err().message(), "expected =, got y");
}

#[test]
fn calls_bind_tightest() {
    assert_eq!(render("add(a, b * c) + d"), "(add(a, (b * c)) + d)");
    assert_eq!(render("a + add(b * c) + d"), "((a + add((b * c))) + d)");
    assert_eq!(render("add(a + b + c * d / f + g)"), "add((((a + b) + ((c * d) / f)) + g))");
    assert_eq!(render("f()"), "f()");
    assert_eq!(render("-f(x)"), "(-f(x))");
}

#[test]
fn if_expressions() {
    assert_eq!(render("if (x < y) { x }"), "if(x < y) x");
    assert_eq!(render("if (x < y) { x } else { y }"), "if(x < y) xelse y");
    assert_eq!(render("let max = if (a > b) { a } else { b };"), "let max = if(a > b) aelse b;");
    let program = parse("if (x) { y }").unwrap();
    match &program.statements[0] {
        Statement::Expression(es) => match &es.expression {
            Expression::If(x) => {
                assert!(x.alternative.is_none());
                assert_eq!(x.consequence.statements.len(), 1);
            },
            other => panic!("unexpected {:?}", other),
        },
        other => panic!("unexpected {:?}", other),
    }
}

#[test]
fn function_literals() {
    assert_eq!(render("fn(x, y) { x + y; }"), "fn(x, y) (x + y)");
    assert_eq!(render("fn() { return 1; }"), "fn() return 1;");
    let program = parse("fn(a, b, c) {}").unwrap();
    match &program.statements[0] {
        Statement::Expression(es) => match &es.expression {
            Expression::Function(f) => {
                assert_eq!(f.parameters, vec![Token::Identifier("a"), Token::Identifier("b"), Token::Identifier("c")]);
                assert_eq!(f.body.statements.len(), 0);
            },
            other => panic!("unexpected {:?}", other),
        },
        other => panic!("unexpected {:?}", other),
    }
}

#[test]
fn block_statements() {
    assert_eq!(render("{ a; b }"), "{ab}");
    assert_eq!(render("{}"), "{}");
}

#[test]
fn missing_delimiters_are_reported() {
    assert!(matches!(
        parse("if x"),
        Err(ParseError::UnexpectedTokenExpected(Expected::LParen, Token::Identifier("x")))
    ));
    assert!(matches!(
        parse("if (x) y"),
        Err(ParseError::UnexpectedTokenExpected(Expected::LCurly, Token::Identifier("y")))
    ));
    assert!(matches!(
        parse("if (x) { a } else b"),
        Err(ParseError::UnexpectedTokenExpected(Expected::LCurly, Token::Identifier("b")))
    ));
    assert!(matches!(
        parse("fn(x y) {}"),
        Err(ParseError::UnexpectedTokenExpected(Expected::RParen, Token::Identifier("y")))
    ));
    assert!(matches!(
        parse("fn(1) {}"),
        Err(ParseError::UnexpectedTokenExpected(Expected::Identifier, Token::Integer("1")))
    ));
    assert!(matches!(
        parse("fn x"),
        Err(ParseError::UnexpectedTokenExpected(Expected::LParen, Token::Identifier("x")))
    ));
    assert!(matches!(parse("{ a"), Err(ParseError::UnexpectedTokenExpected(Expected::RCurly, Token::Eof))));
    assert!(matches!(
        parse("f(a b)"),
        Err(ParseError::UnexpectedTokenExpected(Expected::RParen, Token::Identifier("b")))
    ));
    assert_eq!(parse("{ a").unwrap_err().message(), "expected }, got EOF");
}

#[test]
fn node_texts() {
    let program = parse("-15;").unwrap();
    match &program.statements[0] {
        Statement::Expression(es) => {
            assert_eq!(es.to_string(), "(-15)");
            match &es.expression {
                Expression::Prefix(pe) => assert_eq!(pe.to_string(), "(-15)"),
                other => panic!("unexpected {:?}", other),
            }
        },
        other => panic!("unexpected {:?}", other),
    }
}

#[test]
fn parse_whole_source() {
    let program = Program::parse_source("let a = 5; a * (2 + 3)").unwrap();
    assert_eq!(program.to_string(), "let a = 5;(a * (2 + 3))");
    assert!(matches!(Program::parse_source(")"), Err(ParseError::UnexpectedPrefixToken(Token::RParen))));
}
