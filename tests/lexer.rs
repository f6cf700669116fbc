use monkey::{Lexer, Token};

#[test]
fn lexer_test_lexer_next_token() {
    let input = r#"let five = 5;
let ten = 10;

let add = fn(x, y) {
     x + y;
};

let result = add(five, ten);
!-/*5;
5 < 10 > 5;

if (5 < 10) {
    return true;
} else {
    return false;
}

10 == 10;
10 != 9;"#;

    let tests = vec![
            Token::Let,
            Token::Identifier("five".into()),
            Token::EqualSign,
            Token::Integer(5),
            Token::Semicolon,
            Token::Let,
            Token::Identifier("ten".into()),
            Token::EqualSign,
            Token::Integer(10),
            Token::Semicolon,
            Token::Let,
            Token::Identifier("add".into()),
            Token::EqualSign,
            Token::Function,
            Token::LeftParen,
            Token::Identifier("x".into()),
            Token::Comma,
            Token::Identifier("y".into()),
            Token::RightParen,
            Token::LeftBrace,
            Token::Identifier("x".into()),
            Token::PlusSign,
            Token::Identifier("y".into()),
            Token::Semicolon,
            Token::RightBrace,
            Token::Semicolon,
            Token::Let,
            Token::Identifier("result".into()),
            Token::EqualSign,
            Token::Identifier("add".into()),
            Token::LeftParen,
            Token::Identifier("five".into()),
            Token::Comma,
            Token::Identifier("ten".into()),
            Token::RightParen,
            Token::Semicolon,
            Token::ExclamationMark,
            Token::MinusSign,
            Token::Slash,
            Token::Asterisk,
            Token::Integer(5),
            Token::Semicolon,
            Token::Integer(5),
            Token::LessThan,
            Token::Integer(10),
            Token::GreaterThan,
            Token::Integer(5),
            Token::Semicolon,
            Token::If,
            Token::LeftParen,
            Token::Integer(5),
            Token::LessThan,
            Token::Integer(10),
            Token::RightParen,
            Token::LeftBrace,
            Token::Return,
            Token::True,
            Token::Semicolon,
            Token::RightBrace,
            Token::Else,
            Token::LeftBrace,
            Token::Return,
            Token::False,
            Token::Semicolon,
            Token::RightBrace,
            Token::Integer(10),
            Token::Equal,
            Token::Integer(10),
            Token::Semicolon,
            Token::Integer(10),
            Token::NotEqual,
            Token::Integer(9),
            Token::Semicolon,
            Token::Eof,
        ];

    let mut lexer = Lexer::new(input.into());

    for (index, test) in tests.into_iter().enumerate() {
        let current_token = lexer.next_token();
        assert_eq!(
            current_token, test,
            "tests[{index}] - token wrong. expected={:?}, got={:?}",
            test, current_token
        );
    }
}

#[test]
fn mod_test_lexer_next_token() {
    let input = r#"let five = 5;
let ten = 10;

let add = fn(x, y) {
     x + y;
};

let result = add(five, ten);
!-/*5;
5 < 10 > 5;

if (5 < 10) {
    return true;
} else {
    return false;
}

10 == 10;
10 != 9;
"foobar"
"foo bar"
[1, 2];
{"foo": "bar"}
"#;

    let tests = vec![
            Token::Let,
            Token::Identifier("five".into()),
            Token::EqualSign,
            Token::Integer(5),
            Token::Semicolon,
            Token::Let,
            Token::Identifier("ten".into()),
            Token::EqualSign,
            Token::Integer(10),
            Token::Semicolon,
            Token::Let,
            Token::Identifier("add".into()),
            Token::EqualSign,
            Token::Function,
            Token::LeftParen,
            Token::Identifier("x".into()),
            Token::Comma,
            Token::Identifier("y".into()),
            Token::RightParen,
            Token::LeftBrace,
            Token::Identifier("x".into()),
            Token::PlusSign,
            Token::Identifier("y".into()),
            Token::Semicolon,
            Token::RightBrace,
            Token::Semicolon,
            Token::Let,
            Token::Identifier("result".into()),
            Token::EqualSign,
            Token::Identifier("add".into()),
            Token::LeftParen,
            Token::Identifier("five".into()),
            Token::Comma,
            Token::Identifier("ten".into()),
            Token::RightParen,
            Token::Semicolon,
            Token::ExclamationMark,
            Token::MinusSign,
            Token::Slash,
            Token::Asterisk,
            Token::Integer(5),
            Token::Semicolon,
            Token::Integer(5),
            Token::LessThan,
            Token::Integer(10),
            Token::GreaterThan,
            Token::Integer(5),
            Token::Semicolon,
            Token::If,
            Token::LeftParen,
            Token::Integer(5),
            Token::LessThan,
            Token::Integer(10),
            Token::RightParen,
            Token::LeftBrace,
            Token::Return,
            Token::True,
            Token::Semicolon,
            Token::RightBrace,
            Token::Else,
            Token::LeftBrace,
            Token::Return,
            Token::False,
            Token::Semicolon,
            Token::RightBrace,
            Token::Integer(10),
            Token::Equal,
            Token::Integer(10),
            Token::Semicolon,
            Token::Integer(10),
            Token::NotEqual,
            Token::Integer(9),
            Token::Semicolon,
            Token::String("foobar".into()),
            Token::String("foo bar".into()),
            Token::LeftBracket,
            Token::Integer(1),
            Token::Comma,
            Token::Integer(2),
            Token::RightBracket,
            Token::Semicolon,
            Token::LeftBrace,
            Token::String("foo".into()),
            Token::Colon,
            Token::String("bar".into()),
            Token::RightBrace,
            Token::Eof,
        ];

    let mut lexer = Lexer::new(input.into());

    for (index, test) in tests.into_iter().enumerate() {
        let current_token = lexer.next_token();
        assert_eq!(
            current_token, test,
            "tests[{index}] - token wrong. expected={:?}, got={:?}",
            test, current_token
        );
    }
}

#[test]
fn lexer_stays_at_end() {
    let mut lexer = Lexer::new("x".into());
    assert_eq!(lexer.next_token(), Token::Identifier("x".into()));
    assert_eq!(lexer.next_token(), Token::Eof);
    assert_eq!(lexer.next_token(), Token::Eof);
}

#[test]
fn lexer_too_large_integer_is_illegal() {
    let mut lexer = Lexer::new("99999999999999999999999 1".into());
    assert_eq!(lexer.next_token(), Token::Illegal('9'));
    assert_eq!(lexer.next_token(), Token::Integer(1));
}

#[test]
fn lexer_unclosed_string_runs_to_end() {
    let mut lexer = Lexer::new("\"abc".into());
    assert_eq!(lexer.next_token(), Token::String("abc".into()));
    assert_eq!(lexer.next_token(), Token::Eof);
}

#[test]
fn lexer_unknown_character() {
    let mut lexer = Lexer::new("@".into());
    assert_eq!(lexer.next_token(), Token::Illegal('@'));
}

#[test]
fn lexer_tokenize_ends_with_eof() {
    let mut lexer = Lexer::new("let a = 1;".into());
    assert_eq!(
        lexer.tokenize(),
        vec![
            Token::Let,
            Token::Identifier("a".into()),
            Token::EqualSign,
            Token::Integer(1),
            Token::Semicolon,
            Token::Eof
        ]
    );
}
