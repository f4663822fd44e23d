use lox::lexer::{Position, Scanner, Token, TokenKind};

#[test]
fn position() {
    let mut position = Position::init();

    assert_eq!(position, Position::new(1, 1));
    position.next_line();
    assert_eq!(position, Position::new(2, 1));
    position.next_column();
    position.next_column();
    assert_eq!(position, Position::new(2, 3));
}

#[test]
fn number() {
    let source = "42 13.37";
    let mut scanner = Scanner::init(source);

    let expected_token_1 = Token::new(TokenKind::Number, "42", Position::new(1, 1));
    let expected_token_2 = Token::new(TokenKind::Number, "13.37", Position::new(1, 4));
    assert_eq!(scanner.next_token(), Some(expected_token_1));
    assert_eq!(scanner.next_token(), Some(expected_token_2));
    assert_eq!(scanner.next_token(), None);
}

#[test]
fn string() {
    let source = r#"print "Hello, world!""#;
    let mut scanner = Scanner::init(source);

    let expected_token_1 = Token::new(TokenKind::Print, "print", Position::new(1, 1));
    let expected_token_2 =
        Token::new(TokenKind::String, r#""Hello, world!""#, Position::new(1, 7));
    assert_eq!(scanner.next_token(), Some(expected_token_1));
    assert_eq!(scanner.next_token(), Some(expected_token_2));
    assert_eq!(scanner.next_token(), None);
}

#[test]
fn program() {
    let source = r#"
fun add() {
    var a = 42;
    var b = 13.37;
    return a + b; // The sum!
}"#;
    let mut scanner = Scanner::init(source);

    let expected_token = Token::new(TokenKind::Fun, "fun", Position::new(2, 1));
    assert_eq!(scanner.next_token(), Some(expected_token));
    let expected_token = Token::new(TokenKind::Identifier, "add", Position::new(2, 5));
    assert_eq!(scanner.next_token(), Some(expected_token));
    let expected_token = Token::new(TokenKind::LeftParen, "(", Position::new(2, 8));
    assert_eq!(scanner.next_token(), Some(expected_token));
    let expected_token = Token::new(TokenKind::RightParen, ")", Position::new(2, 9));
    assert_eq!(scanner.next_token(), Some(expected_token));
    let expected_token = Token::new(TokenKind::LeftBrace, "{", Position::new(2, 11));
    assert_eq!(scanner.next_token(), Some(expected_token));

    let expected_token = Token::new(TokenKind::Var, "var", Position::new(3, 5));
    assert_eq!(scanner.next_token(), Some(expected_token));
    let expected_token = Token::new(TokenKind::Identifier, "a", Position::new(3, 9));
    assert_eq!(scanner.next_token(), Some(expected_token));
    let expected_token = Token::new(TokenKind::Equal, "=", Position::new(3, 11));
    assert_eq!(scanner.next_token(), Some(expected_token));
    let expected_token = Token::new(TokenKind::Number, "42", Position::new(3, 13));
    assert_eq!(scanner.next_token(), Some(expected_token));
    let expected_token = Token::new(TokenKind::Semicolon, ";", Position::new(3, 15));
    assert_eq!(scanner.next_token(), Some(expected_token));

    let expected_token = Token::new(TokenKind::Var, "var", Position::new(4, 5));
    assert_eq!(scanner.next_token(), Some(expected_token));
    let expected_token = Token::new(TokenKind::Identifier, "b", Position::new(4, 9));
    assert_eq!(scanner.next_token(), Some(expected_token));
    let expected_token = Token::new(TokenKind::Equal, "=", Position::new(4, 11));
    assert_eq!(scanner.next_token(), Some(expected_token));
    let expected_token = Token::new(TokenKind::Number, "13.37", Position::new(4, 13));
    assert_eq!(scanner.next_token(), Some(expected_token));
    let expected_token = Token::new(TokenKind::Semicolon, ";", Position::new(4, 18));
    assert_eq!(scanner.next_token(), Some(expected_token));

    let expected_token = Token::new(TokenKind::Return, "return", Position::new(5, 5));
    assert_eq!(scanner.next_token(), Some(expected_token));
    let expected_token = Token::new(TokenKind::Identifier, "a", Position::new(5, 12));
    assert_eq!(scanner.next_token(), Some(expected_token));
    let expected_token = Token::new(TokenKind::Plus, "+", Position::new(5, 14));
    assert_eq!(scanner.next_token(), Some(expected_token));
    let expected_token = Token::new(TokenKind::Identifier, "b", Position::new(5, 16));
    assert_eq!(scanner.next_token(), Some(expected_token));
    let expected_token = Token::new(TokenKind::Semicolon, ";", Position::new(5, 17));
    assert_eq!(scanner.next_token(), Some(expected_token));
    let expected_token = Token::new(TokenKind::Comment, "// The sum!", Position::new(5, 19));
    assert_eq!(scanner.next_token(), Some(expected_token));

    let expected_token = Token::new(TokenKind::RightBrace, "}", Position::new(6, 1));
    assert_eq!(scanner.next_token(), Some(expected_token));
    assert_eq!(scanner.next_token(), None);
}

#[test]
fn keyword_vs_identifier() {
    let mut scanner = Scanner::init("for");
    let token = scanner.next_token().unwrap();
    assert_eq!(token.kind, TokenKind::For);
    assert_eq!(token.lexeme, "for");

    let mut scanner = Scanner::init("forest");
    let token = scanner.next_token().unwrap();
    assert_eq!(token.kind, TokenKind::Identifier);
    assert_eq!(token.lexeme, "forest");
}

#[test]
fn all_keywords() {
    let cases = [
        ("and", TokenKind::And),
        ("class", TokenKind::Class),
        ("else", TokenKind::Else),
        ("false", TokenKind::False),
        ("for", TokenKind::For),
        ("fun", TokenKind::Fun),
        ("if", TokenKind::If),
        ("nil", TokenKind::Nil),
        ("or", TokenKind::Or),
        ("print", TokenKind::Print),
        ("return", TokenKind::Return),
        ("super", TokenKind::Super),
        ("this", TokenKind::This),
        ("true", TokenKind::True),
        ("var", TokenKind::Var),
        ("while", TokenKind::While),
    ];
    for (source, kind) in cases {
        let mut scanner = Scanner::init(source);
        let token = scanner.next_token().unwrap();
        assert_eq!(token.kind, kind);
        assert_eq!(token.lexeme, source);
        assert_eq!(scanner.next_token(), None);
    }
}

#[test]
fn operators_and_punctuation() {
    let mut scanner = Scanner::init("(){};,.+-*/ ! != = == > >= < <=");
    let mut kinds = Vec::new();
    while let Some(token) = scanner.next_token() {
        kinds.push(token.kind);
    }
    assert_eq!(
        kinds,
        vec![
            TokenKind::LeftParen,
            TokenKind::RightParen,
            TokenKind::LeftBrace,
            TokenKind::RightBrace,
            TokenKind::Semicolon,
            TokenKind::Comma,
            TokenKind::Dot,
            TokenKind::Plus,
            TokenKind::Minus,
            TokenKind::Star,
            TokenKind::Slash,
            TokenKind::Bang,
            TokenKind::BangEqual,
            TokenKind::Equal,
            TokenKind::EqualEqual,
            TokenKind::Greater,
            TokenKind::GreaterEqual,
            TokenKind::Less,
            TokenKind::LessEqual,
        ]
    );
}

#[test]
fn comment_runs_to_end_of_line() {
    let mut scanner = Scanner::init("// all of this\nx");
    let token = scanner.next_token().unwrap();
    assert_eq!(token.kind, TokenKind::Comment);
    assert_eq!(token.lexeme, "// all of this");
    let token = scanner.next_token().unwrap();
    assert_eq!(token.kind, TokenKind::Identifier);
    assert_eq!(token.position, Position::new(2, 1));
    assert_eq!(scanner.next_token(), None);
}

#[test]
fn unterminated_string_is_a_token() {
    let mut scanner = Scanner::init("\"abc");
    let token = scanner.next_token().unwrap();
    assert_eq!(token.kind, TokenKind::UnterminatedStringError);
    assert_eq!(token.lexeme, "\"abc");
    assert_eq!(scanner.next_token(), None);

    let mut scanner = Scanner::init("\"abc\ndef");
    let token = scanner.next_token().unwrap();
    assert_eq!(token.kind, TokenKind::UnterminatedStringError);
    assert_eq!(token.lexeme, "\"abc");
    let token = scanner.next_token().unwrap();
    assert_eq!(token.kind, TokenKind::Identifier);
    assert_eq!(token.lexeme, "def");
    assert_eq!(token.position, Position::new(2, 1));
}

#[test]
fn unexpected_character_is_a_token() {
    let mut scanner = Scanner::init("@");
    let token = scanner.next_token().unwrap();
    assert_eq!(token.kind, TokenKind::UnexpectedCharacterError);
    assert_eq!(token.lexeme, "@");
    assert_eq!(scanner.next_token(), None);
}

#[test]
fn dot_needs_a_following_digit() {
    let mut scanner = Scanner::init("1. 2.5.3");
    let token = scanner.next_token().unwrap();
    assert_eq!((token.kind, token.lexeme.as_str()), (TokenKind::Number, "1"));
    let token = scanner.next_token().unwrap();
    assert_eq!(token.kind, TokenKind::Dot);
    let token = scanner.next_token().unwrap();
    assert_eq!((token.kind, token.lexeme.as_str()), (TokenKind::Number, "2.5"));
    let token = scanner.next_token().unwrap();
    assert_eq!(token.kind, TokenKind::Dot);
    let token = scanner.next_token().unwrap();
    assert_eq!((token.kind, token.lexeme.as_str()), (TokenKind::Number, "3"));
    assert_eq!(scanner.next_token(), None);
}

#[test]
fn end_of_input_repeats() {
    let mut scanner = Scanner::init("  \t\r\n ");
    assert_eq!(scanner.next_token(), None);
    assert_eq!(scanner.next_token(), None);
    assert_eq!(scanner.next_token(), None);
}

#[test]
fn lexemes_reconstruct_source() {
    let source = "var x=1.5;\nprint(y)";
    let mut scanner = Scanner::init(source);
    let mut rebuilt = String::new();
    while let Some(token) = scanner.next_token() {
        rebuilt.push_str(&token.lexeme);
    }
    let without_whitespace: String = source
        .chars()
        .filter(|c| !matches!(c, ' ' | '\t' | '\n' | '\r'))
        .collect();
    assert_eq!(rebuilt, without_whitespace);
}

#[test]
fn token_positions_strictly_increase() {
    let mut scanner = Scanner::init("a b\nc + d // trailing\n\"s\"");
    let mut previous: Option<Position> = None;
    while let Some(token) = scanner.next_token() {
        if let Some(p) = previous {
            assert!(p < token.position);
        }
        previous = Some(token.position);
    }
    assert!(previous.is_some());
}

#[test]
fn position_total_order() {
    assert!(Position::new(1, 9) < Position::new(2, 1));
    assert!(Position::new(2, 1) < Position::new(2, 3));
    assert!(!(Position::new(2, 3) < Position::new(2, 3)));
    assert!(Position::new(3, 1) > Position::new(2, 9));
    assert_eq!(Position::default(), Position::init());
}

#[test]
fn character_classes() {
    assert!(lox::lexer::is_digit('0') && lox::lexer::is_digit('9'));
    assert!(!lox::lexer::is_digit('a'));
    assert!(lox::lexer::is_alpha('A') && lox::lexer::is_alpha('z') && lox::lexer::is_alpha('_'));
    assert!(!lox::lexer::is_alpha('1'));
    assert!(lox::lexer::is_alphanumeric('7') && lox::lexer::is_alphanumeric('g'));
    assert!(!lox::lexer::is_alphanumeric('.'));
    assert!(lox::lexer::is_whitespace(' ') && lox::lexer::is_whitespace('\t'));
    assert!(lox::lexer::is_whitespace('\n') && lox::lexer::is_whitespace('\r'));
    assert!(!lox::lexer::is_whitespace('x'));
}
