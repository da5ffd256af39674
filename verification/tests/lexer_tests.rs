use monkey_front::{Lexer, TokenKind};

#[test]
fn test_next_token_simple() {
    let input = "=+(){},;==";
    let mut lexer = Lexer::new(input);

    let tokens = vec![
        TokenKind::ASSIGN,
        TokenKind::PLUS,
        TokenKind::LPAREN,
        TokenKind::RPAREN,
        TokenKind::LBRACE,
        TokenKind::RBRACE,
        TokenKind::COMMA,
        TokenKind::SEMICOLON,
        TokenKind::EQ,
    ];

    for token in tokens {
        let next_token = lexer.next_token();
        println!("expected: {:?}, received {:?}", token, next_token.kind);
        assert_eq!(token, next_token.kind);
    }
}

#[test]
fn test_assignment_mixed() {
    let input = r#"
        let five = 5;

        let six=6;
        let msg = "HelloWorld!";

        // this is a comment
        let x = five + six;
        "#;
    let mut lexer = Lexer::new(input);

    let tokens = vec![
        TokenKind::LET,
        TokenKind::IDENTIFIER {
            name: "five".to_string(),
        },
        TokenKind::ASSIGN,
        TokenKind::INT(5),
        TokenKind::SEMICOLON,
        TokenKind::LET,
        TokenKind::IDENTIFIER {
            name: "six".to_string(),
        },
        TokenKind::ASSIGN,
        TokenKind::INT(6),
        TokenKind::SEMICOLON,
        TokenKind::LET,
        TokenKind::IDENTIFIER {
            name: "msg".to_string(),
        },
        TokenKind::ASSIGN,
        TokenKind::STRING("HelloWorld!".to_string()),
        TokenKind::SEMICOLON,
        //
        TokenKind::LET,
        TokenKind::IDENTIFIER {
            name: "x".to_string(),
        },
        TokenKind::ASSIGN,
        TokenKind::IDENTIFIER {
            name: "five".to_string(),
        },
        TokenKind::PLUS,
        TokenKind::IDENTIFIER {
            name: "six".to_string(),
        },
        TokenKind::SEMICOLON,
        TokenKind::EOF,
    ];

    for token in tokens {
        let next_token = lexer.next_token();
        println!("expected: {:?}, received {:?}", token, next_token.kind);
        assert_eq!(token, next_token.kind);
    }
}

#[test]
fn single_character_tokens_scan_alone() {
    let cases = vec![
        (";", TokenKind::SEMICOLON),
        ("(", TokenKind::LPAREN),
        (")", TokenKind::RPAREN),
        ("{", TokenKind::LBRACE),
        ("}", TokenKind::RBRACE),
        (",", TokenKind::COMMA),
        ("+", TokenKind::PLUS),
        ("-", TokenKind::MINUS),
        ("=", TokenKind::ASSIGN),
    ];
    for (input, expected) in cases {
        let mut lexer = Lexer::new(input);
        let t = lexer.next_token();
        assert_eq!(t.kind, expected);
        assert_eq!(t.literal, input.to_string());
        assert_eq!(lexer.next_token().kind, TokenKind::EOF);
    }
}

#[test]
fn double_equals_is_one_token() {
    let mut lexer = Lexer::new("==");
    let t = lexer.next_token();
    assert_eq!(t.kind, TokenKind::EQ);
    assert_eq!(t.literal, "==".to_string());
    assert_eq!(lexer.next_token().kind, TokenKind::EOF);

    let mut lexer = Lexer::new("=");
    assert_eq!(lexer.next_token().kind, TokenKind::ASSIGN);
    assert_eq!(lexer.next_token().kind, TokenKind::EOF);
}

#[test]
fn string_literal_strips_quotes() {
    let mut lexer = Lexer::new("\"HelloWorld!\"");
    let t = lexer.next_token();
    assert_eq!(t.kind, TokenKind::STRING("HelloWorld!".to_string()));
    assert_eq!(t.literal, "HelloWorld!".to_string());
    assert_eq!(lexer.next_token().kind, TokenKind::EOF);
}

#[test]
fn unterminated_string_runs_to_end_of_input() {
    let mut lexer = Lexer::new("\"abc");
    let t = lexer.next_token();
    assert_eq!(t.kind, TokenKind::STRING("abc".to_string()));
    assert_eq!(lexer.next_token().kind, TokenKind::EOF);
}

#[test]
fn let_binding_tokenizes_exactly() {
    let mut lexer = Lexer::new("let five = 5;");
    let expected = vec![
        TokenKind::LET,
        TokenKind::IDENTIFIER {
            name: "five".to_string(),
        },
        TokenKind::ASSIGN,
        TokenKind::INT(5),
        TokenKind::SEMICOLON,
        TokenKind::EOF,
    ];
    for kind in expected {
        assert_eq!(lexer.next_token().kind, kind);
    }
}

#[test]
fn comment_line_is_invisible() {
    let with_comment = "let x = 1; // comment\nlet y = 2;";
    let without_comment = "let x = 1; \nlet y = 2;";
    let a = monkey_front::tokenize(with_comment);
    let b = monkey_front::tokenize(without_comment);
    assert_eq!(a, b);
}

#[test]
fn tokenizing_twice_is_identical() {
    let input = "let five = 5; // note\nreturn \"done\";";
    let first = monkey_front::tokenize(input);
    let second = monkey_front::tokenize(input);
    assert_eq!(first, second);
}

#[test]
fn unrecognized_character_is_illegal() {
    let mut lexer = Lexer::new("@");
    let t = lexer.next_token();
    assert_eq!(t.kind, TokenKind::ILLEGAL);
    assert_eq!(t.literal, "@".to_string());
    assert_eq!(lexer.next_token().kind, TokenKind::EOF);
}

#[test]
fn end_of_input_repeats() {
    let mut lexer = Lexer::new("");
    assert_eq!(lexer.next_token().kind, TokenKind::EOF);
    assert_eq!(lexer.next_token().kind, TokenKind::EOF);
    assert_eq!(lexer.next_token().kind, TokenKind::EOF);
}

#[test]
fn integer_literal_keeps_source_text() {
    let mut lexer = Lexer::new("9223372036854775807;");
    let t = lexer.next_token();
    assert_eq!(t.kind, TokenKind::INT(i64::MAX));
    assert_eq!(t.literal, "9223372036854775807".to_string());
    assert_eq!(lexer.next_token().kind, TokenKind::SEMICOLON);
}

#[test]
fn tokenize_collects_through_end_of_input() {
    let tokens = monkey_front::tokenize("");
    assert_eq!(tokens.len(), 1);
    assert_eq!(tokens[0].kind, TokenKind::EOF);

    let tokens = monkey_front::tokenize("five + six");
    let kinds: Vec<TokenKind> = tokens.into_iter().map(|t| t.kind).collect();
    assert_eq!(
        kinds,
        vec![
            TokenKind::IDENTIFIER {
                name: "five".to_string()
            },
            TokenKind::PLUS,
            TokenKind::IDENTIFIER {
                name: "six".to_string()
            },
            TokenKind::EOF,
        ]
    );
}

#[test]
fn whitespace_is_skipped_before_every_token() {
    let mut lexer = Lexer::new(" \t\r\n +  \t-");
    assert_eq!(lexer.next_token().kind, TokenKind::PLUS);
    assert_eq!(lexer.next_token().kind, TokenKind::MINUS);
    assert_eq!(lexer.next_token().kind, TokenKind::EOF);
}

#[test]
fn consecutive_comment_lines_are_skipped() {
    let input = "// first\n// second\nlet";
    let mut lexer = Lexer::new(input);
    assert_eq!(lexer.next_token().kind, TokenKind::LET);
    assert_eq!(lexer.next_token().kind, TokenKind::EOF);
}

#[test]
fn comment_at_end_of_input_yields_end() {
    let mut lexer = Lexer::new("+ // trailing words");
    assert_eq!(lexer.next_token().kind, TokenKind::PLUS);
    assert_eq!(lexer.next_token().kind, TokenKind::EOF);
}

#[test]
fn integer_literals_fit_follows_the_token_stream() {
    assert!(monkey_front::integer_literals_fit(""));
    assert!(monkey_front::integer_literals_fit("let five = 5;"));
    // exactly the largest payload still fits
    assert!(monkey_front::integer_literals_fit("9223372036854775807"));
    // one past the largest payload does not
    assert!(!monkey_front::integer_literals_fit("9223372036854775808;"));
    assert!(!monkey_front::integer_literals_fit(
        "let big = 99999999999999999999;"
    ));
    // digit runs inside string literals and comments are not integer tokens
    assert!(monkey_front::integer_literals_fit(
        "\"99999999999999999999\""
    ));
    assert!(monkey_front::integer_literals_fit(
        "// 99999999999999999999\n5"
    ));
}

#[test]
fn classifier_helpers_match_ascii_rules() {
    assert!(monkey_front::is_letter('a'));
    assert!(monkey_front::is_letter('Z'));
    assert!(monkey_front::is_letter('_'));
    assert!(!monkey_front::is_letter('1'));
    assert!(!monkey_front::is_letter(' '));
    assert!(monkey_front::is_digit('0'));
    assert!(monkey_front::is_digit('9'));
    assert!(!monkey_front::is_digit('a'));
}
