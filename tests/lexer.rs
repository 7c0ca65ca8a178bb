use rust_interpreter::lexer::Lexer;
use rust_interpreter::token::Token;

#[test]
fn test_next_token() {
    let input = r#"
        let five = 5;
        let ten = 10;
        
        let add = fn(x, y) {
            x + y;
        };

        let result = add(five, ten);

        !-/*5;
        5 < 10 > 5;
        

        if (5 < 10) {
            return true;
        } else {
            return false;
        }
        
        10 == 10;
        10 != 9;
        "#;

    let mut lexer = Lexer::new(input.into());
    let tests = [
        Token::Let,
        Token::Identifier("five".into()),
        Token::Assign,
        Token::Integer("5".into()),
        Token::Semicolon,
        Token::Let,
        Token::Identifier("ten".into()),
        Token::Assign,
        Token::Integer("10".into()),
        Token::Semicolon,
        Token::Let,
        Token::Identifier("add".into()),
        Token::Assign,
        Token::Function,
        Token::LParen,
        Token::Identifier("x".into()),
        Token::Comma,
        Token::Identifier("y".into()),
        Token::RParen,
        Token::LCurly,
        Token::Identifier("x".into()),
        Token::Plus,
        Token::Identifier("y".into()),
        Token::Semicolon,
        Token::RCurly,
        Token::Semicolon,
        Token::Let,
        Token::Identifier("result".into()),
        Token::Assign,
        Token::Identifier("add".into()),
        Token::LParen,
        Token::Identifier("five".into()),
        Token::Comma,
        Token::Identifier("ten".into()),
        Token::RParen,
        Token::Semicolon,
        Token::Bang,
        Token::Minus,
        Token::Slash,
        Token::Asterisk,
        Token::Integer("5".into()),
        Token::Semicolon,
        Token::Integer("5".into()),
        Token::LessThan,
        Token::Integer("10".into()),
        Token::GreaterThan,
        Token::Integer("5".into()),
        Token::Semicolon,
        Token::If,
        Token::LParen,
        Token::Integer("5".into()),
        Token::LessThan,
        Token::Integer("10".into()),
        Token::RParen,
        Token::LCurly,
        Token::Return,
        Token::True,
        Token::Semicolon,
        Token::RCurly,
        Token::Else,
        Token::LCurly,
        Token::Return,
        Token::False,
        Token::Semicolon,
        Token::RCurly,
        Token::Integer("10".into()),
        Token::Equal,
        Token::Integer("10".into()),
        Token::Semicolon,
        Token::Integer("10".into()),
        Token::NotEqual,
        Token::Integer("9".into()),
        Token::Semicolon,
        Token::Eof,
    ];

    for (i, tt) in tests.iter().enumerate() {
        let tok = lexer.next_token();
        assert_eq!(
            &tok, tt,
            "tests[{}] - token type wrong. expected={:#?}, got={:#?}",
            i, tt, tok
        );
    }
}

#[test]
fn comparison_line_lexes_exactly() {
    let mut lexer = Lexer::new("5 < 10 > 5;");
    let expected = [
        Token::Integer("5"),
        Token::LessThan,
        Token::Integer("10"),
        Token::GreaterThan,
        Token::Integer("5"),
        Token::Semicolon,
        Token::Eof,
    ];
    for tt in expected.iter() {
        assert_eq!(&lexer.next_token(), tt);
    }
}

#[test]
fn two_character_operators_are_single_tokens() {
    let mut lexer = Lexer::new("10 == 10; 10 != 9;");
    let expected = [
        Token::Integer("10"),
        Token::Equal,
        Token::Integer("10"),
        Token::Semicolon,
        Token::Integer("10"),
        Token::NotEqual,
        Token::Integer("9"),
        Token::Semicolon,
        Token::Eof,
    ];
    for tt in expected.iter() {
        assert_eq!(&lexer.next_token(), tt);
    }
}

#[test]
fn lone_equals_and_bang() {
    let mut lexer = Lexer::new("= ! =!");
    assert_eq!(lexer.next_token(), Token::Assign);
    assert_eq!(lexer.next_token(), Token::Bang);
    assert_eq!(lexer.next_token(), Token::Assign);
    assert_eq!(lexer.next_token(), Token::Bang);
    assert_eq!(lexer.next_token(), Token::Eof);
}

#[test]
fn eof_repeats_forever() {
    let mut lexer = Lexer::new("x  ");
    assert_eq!(lexer.next_token(), Token::Identifier("x"));
    for _ in 0..5 {
        assert_eq!(lexer.next_token(), Token::Eof);
    }
    let mut empty = Lexer::new("");
    assert_eq!(empty.next_token(), Token::Eof);
    assert_eq!(empty.next_token(), Token::Eof);
}

#[test]
fn illegal_character_is_consumed() {
    let mut lexer = Lexer::new("a @ b");
    assert_eq!(lexer.next_token(), Token::Identifier("a"));
    assert_eq!(lexer.next_token(), Token::Illegal);
    assert_eq!(lexer.next_token(), Token::Identifier("b"));
    assert_eq!(lexer.next_token(), Token::Eof);
}

#[test]
fn identifiers_stop_at_digits_and_underscores() {
    let mut lexer = Lexer::new("ab1_c");
    assert_eq!(lexer.next_token(), Token::Identifier("ab"));
    assert_eq!(lexer.next_token(), Token::Integer("1"));
    assert_eq!(lexer.next_token(), Token::Illegal);
    assert_eq!(lexer.next_token(), Token::Identifier("c"));
    assert_eq!(lexer.next_token(), Token::Eof);
}

#[test]
fn keywords_need_an_exact_match() {
    let mut lexer = Lexer::new("fn fun lets let returns");
    assert_eq!(lexer.next_token(), Token::Function);
    assert_eq!(lexer.next_token(), Token::Identifier("fun"));
    assert_eq!(lexer.next_token(), Token::Identifier("lets"));
    assert_eq!(lexer.next_token(), Token::Let);
    assert_eq!(lexer.next_token(), Token::Identifier("returns"));
}

#[test]
fn unicode_letters_and_whitespace() {
    let mut lexer = Lexer::new("\u{3000}über\u{a0}12");
    assert_eq!(lexer.next_token(), Token::Identifier("über"));
    assert_eq!(lexer.next_token(), Token::Integer("12"));
    assert_eq!(lexer.next_token(), Token::Eof);
}

#[test]
fn token_text_is_the_source_slice() {
    let source = "  alpha 42";
    let mut lexer = Lexer::new(source);
    assert_eq!(lexer.next_token().literal(), &source[2..7]);
    assert_eq!(lexer.next_token().literal(), &source[8..10]);
}

#[test]
fn lexer_next_ends_at_eof() {
    let mut lexer = Lexer::new("a + 1");
    assert_eq!(lexer.next(), Some(Token::Identifier("a")));
    assert_eq!(lexer.next(), Some(Token::Plus));
    assert_eq!(lexer.next(), Some(Token::Integer("1")));
    assert_eq!(lexer.next(), None);
    assert_eq!(lexer.next(), None);
}

#[test]
fn token_equality_compares_text() {
    assert_eq!(Token::Identifier("a"), Token::Identifier("a"));
    assert_ne!(Token::Identifier("a"), Token::Identifier("b"));
    assert_ne!(Token::Identifier("1"), Token::Integer("1"));
    assert_ne!(Token::Plus, Token::Minus);
    assert_eq!(Token::lookup_literal(&Token::NotEqual), "!=");
    assert_eq!(Token::lookup_ident("return"), Token::Return);
    assert_eq!(Token::lookup_ident("x"), Token::Identifier("x"));
}
