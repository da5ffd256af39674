use monkey_front::{lookup_identifier, Token, TokenKind};

#[test]
fn keywords_map_to_keyword_kinds() {
    assert_eq!(lookup_identifier("fn"), TokenKind::FUNCTION);
    assert_eq!(lookup_identifier("let"), TokenKind::LET);
    assert_eq!(lookup_identifier("true"), TokenKind::TRUE);
    assert_eq!(lookup_identifier("false"), TokenKind::FALSE);
    assert_eq!(lookup_identifier("if"), TokenKind::IF);
    assert_eq!(lookup_identifier("else"), TokenKind::ELSE);
    assert_eq!(lookup_identifier("return"), TokenKind::RETURN);
}

#[test]
fn other_words_become_identifiers() {
    assert_eq!(
        lookup_identifier("five"),
        TokenKind::IDENTIFIER {
            name: "five".to_string()
        }
    );
    assert_eq!(
        lookup_identifier("lets"),
        TokenKind::IDENTIFIER {
            name: "lets".to_string()
        }
    );
    assert_eq!(
        lookup_identifier("_tmp"),
        TokenKind::IDENTIFIER {
            name: "_tmp".to_string()
        }
    );
}

#[test]
fn kind_display_text_matches_the_printer() {
    assert_eq!(TokenKind::ASSIGN.display_string(), "ASSIGN".to_string());
    assert_eq!(TokenKind::EQ.display_string(), "EQ".to_string());
    assert_eq!(TokenKind::SEMICOLON.display_string(), "SEMICOLON".to_string());
    assert_eq!(TokenKind::LBRACE.display_string(), "{".to_string());
    assert_eq!(TokenKind::EOF.display_string(), "EOF".to_string());
    assert_eq!(
        TokenKind::IDENTIFIER {
            name: "five".to_string()
        }
        .display_string(),
        "five".to_string()
    );
    assert_eq!(TokenKind::INT(0).display_string(), "0".to_string());
    assert_eq!(TokenKind::INT(1234).display_string(), "1234".to_string());
    assert_eq!(TokenKind::INT(-42).display_string(), "-42".to_string());
    assert_eq!(
        TokenKind::INT(i64::MIN).display_string(),
        "-9223372036854775808".to_string()
    );
    assert_eq!(
        TokenKind::STRING("abc".to_string()).display_string(),
        "abc".to_string()
    );
}

#[test]
fn token_display_prefixes_the_kind() {
    let token = Token {
        kind: TokenKind::LET,
        literal: "let".to_string(),
    };
    assert_eq!(token.display_string(), "kind: LET".to_string());
}

#[test]
fn token_equality_is_structural() {
    let a = Token {
        kind: TokenKind::INT(5),
        literal: "5".to_string(),
    };
    let b = Token {
        kind: TokenKind::INT(5),
        literal: "5".to_string(),
    };
    let c = Token {
        kind: TokenKind::INT(6),
        literal: "6".to_string(),
    };
    assert_eq!(a, b);
    assert_ne!(a, c);
    assert_eq!(a.clone(), a);
}
