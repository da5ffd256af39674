use monkey_front::{Let, Lexer, Parser, ReturnStatement, Statement, Token, TokenKind};

#[test]
fn test_let_statement() {
    let input = r#"
        let five = 5;
        "#;

    let mut parser = Parser::new(Lexer::new(input));
    let program = parser.parse_program().expect("failed to parse program");

    assert_eq!(program.statements.len(), 1);

    let exp1 = Statement::Let(Let {
        identifier: Token {
            kind: TokenKind::IDENTIFIER {
                name: "five".to_string(),
            },
            literal: "five".to_string(),
        },
    });
    assert_eq!(program.statements[0], exp1);
}

#[test]
fn test_return_statement() {
    let input = r#"
        return 5;
        "#;

    let mut parser = Parser::new(Lexer::new(input));
    let program = parser.parse_program().expect("failed to parse program");

    assert_eq!(program.statements.len(), 1);

    let exp = Statement::Return(ReturnStatement {
        identifier: Token {
            kind: TokenKind::RETURN,
            literal: "return".to_string(),
        },
    });
    assert_eq!(program.statements[0], exp);
}

#[test]
fn let_without_identifier_is_a_syntax_error() {
    let mut parser = Parser::new(Lexer::new("let = 5;"));
    let result = parser.parse_program();
    assert!(result.is_err());
    assert_eq!(
        result.unwrap_err(),
        "expected identifier after let".to_string()
    );
}

#[test]
fn empty_input_parses_to_empty_program() {
    let mut parser = Parser::new(Lexer::new(""));
    let program = parser.parse_program().expect("failed to parse program");
    assert_eq!(program.statements.len(), 0);
}

#[test]
fn expression_statement_is_the_sentinel_placeholder() {
    let mut parser = Parser::new(Lexer::new("five;"));
    let program = parser.parse_program().expect("failed to parse program");
    assert_eq!(program.statements.len(), 2);
    assert_eq!(
        program.statements[0],
        Statement::Identifier {
            name: "Nothing".to_string()
        }
    );
}

#[test]
fn return_consumes_through_its_semicolon() {
    // two return statements in a row: if the first left tokens before its
    // semicolon unconsumed, the second statement would not be a Return
    let mut parser = Parser::new(Lexer::new("return 1 + 2;return 3;"));
    let program = parser.parse_program().expect("failed to parse program");
    assert_eq!(program.statements.len(), 2);
    for statement in &program.statements {
        assert_eq!(
            *statement,
            Statement::Return(ReturnStatement {
                identifier: Token {
                    kind: TokenKind::RETURN,
                    literal: "return".to_string(),
                },
            })
        );
    }
}

#[test]
fn parse_statement_dispatches_on_the_current_token() {
    let mut parser = Parser::new(Lexer::new("let x = 1;"));
    let statement = parser.parse_statement().expect("failed to parse statement");
    assert_eq!(
        statement,
        Statement::Let(Let {
            identifier: Token {
                kind: TokenKind::IDENTIFIER {
                    name: "x".to_string(),
                },
                literal: "x".to_string(),
            },
        })
    );
}

#[test]
fn let_bindings_parse_one_statement_each() {
    let mut parser = Parser::new(Lexer::new("let five = 5;\nlet six = 6;"));
    let program = parser.parse_program().expect("failed to parse program");
    assert_eq!(program.statements.len(), 2);
    for (statement, name) in program.statements.iter().zip(["five", "six"]) {
        assert_eq!(
            *statement,
            Statement::Let(Let {
                identifier: Token {
                    kind: TokenKind::IDENTIFIER {
                        name: name.to_string(),
                    },
                    literal: name.to_string(),
                },
            })
        );
    }
}

#[test]
fn program_new_starts_empty() {
    let program = monkey_front::Program::new();
    assert_eq!(program.statements.len(), 0);
}
