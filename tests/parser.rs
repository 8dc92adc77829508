use json_parser::{AstNode, Parser, ParserError, Scanner, Token, TokenLiteral, TokenPosition, TokenType};

fn tokens_of(source: &str) -> Vec<Token> {
    Scanner::new(source).scan().unwrap()
}

fn parse_text(source: &str) -> Result<AstNode, ParserError> {
    Parser::new(tokens_of(source)).parse()
}

#[test]
fn get_list() {
    let mut scanner = Scanner::new("[true]");
    let tokens = scanner.scan().unwrap();
    let mut parser = Parser::new(tokens);

    let res = parser.parse();
    assert_eq!(
        Ok(AstNode::Array(
            Token::new(
                TokenType::LeftBracket,
                TokenLiteral::String("[".to_string()),
                TokenPosition::new(1, 1, 2)
            ),
            vec![AstNode::Value(TokenLiteral::Bool(true))],
            Token::new(
                TokenType::RightBracket,
                TokenLiteral::String("]".to_string()),
                TokenPosition::new(1, 6, 7)
            ),
        )),
        res
    );
}

#[test]
fn get_value() {
    let mut parser = Parser::new(vec![Token::new(
        TokenType::True,
        TokenLiteral::Bool(true),
        TokenPosition::new(1, 1, 2),
    )]);
    assert_eq!(
        AstNode::Value(TokenLiteral::Bool(true)),
        parser.parse_value().unwrap()
    );

    let mut parser = Parser::new(vec![Token::new(
        TokenType::String,
        TokenLiteral::String("hello".to_string()),
        TokenPosition::new(1, 1, 2),
    )]);
    assert_eq!(
        AstNode::Value(TokenLiteral::String("hello".to_string())),
        parser.parse_value().unwrap()
    );

    let mut parser = Parser::new(vec![Token::new(
        TokenType::Colon,
        TokenLiteral::String(":".to_string()),
        TokenPosition::new(1, 1, 2),
    )]);
    assert_eq!(
        Err(ParserError::UnexpectedToken(
            "Error at [line:1, between:1-2] Expected value".to_string()
        )),
        parser.parse_value()
    );
}

#[test]
fn get_current_token() {
    let mut parser = Parser::new(vec![Token::new(
        TokenType::True,
        TokenLiteral::Bool(true),
        TokenPosition::new(1, 1, 2),
    )]);
    let token = parser.next().unwrap();

    assert_eq!(
        Token::new(
            TokenType::True,
            TokenLiteral::Bool(true),
            TokenPosition::new(1, 1, 2),
        ),
        token
    );
    assert_eq!(1, parser.current);
}

#[test]
fn look_at_current_token() {
    let parser = Parser::new(vec![Token::new(
        TokenType::True,
        TokenLiteral::Bool(true),
        TokenPosition::new(1, 1, 2),
    )]);
    let token = parser.peek().unwrap();

    assert_eq!(
        Token::new(
            TokenType::True,
            TokenLiteral::Bool(true),
            TokenPosition::new(1, 1, 2),
        ),
        *token
    );
}

#[test]
fn parse_object_end_to_end() {
    let tokens = tokens_of("{ \"m\": false }");
    let res = Parser::new(tokens.clone()).parse();
    assert_eq!(
        Ok(AstNode::Object(
            tokens[0].clone(),
            vec![AstNode::Member(
                Token::new(
                    TokenType::String,
                    TokenLiteral::String("m".to_string()),
                    TokenPosition::new(1, 3, 6)
                ),
                Token::new(
                    TokenType::Colon,
                    TokenLiteral::String(":".to_string()),
                    TokenPosition::new(1, 6, 7)
                ),
                Box::new(AstNode::Value(TokenLiteral::Bool(false))),
            )],
            Token::new(
                TokenType::RightBrace,
                TokenLiteral::String("}".to_string()),
                TokenPosition::new(1, 14, 15)
            ),
        )),
        res
    );
}

#[test]
fn parse_array_end_to_end() {
    let res = parse_text("[ true, false ]");
    assert_eq!(
        Ok(AstNode::Array(
            Token::new(
                TokenType::LeftBracket,
                TokenLiteral::String("[".to_string()),
                TokenPosition::new(1, 1, 2)
            ),
            vec![
                AstNode::Value(TokenLiteral::Bool(true)),
                AstNode::Value(TokenLiteral::Bool(false)),
            ],
            Token::new(
                TokenType::RightBracket,
                TokenLiteral::String("]".to_string()),
                TokenPosition::new(1, 15, 16)
            ),
        )),
        res
    );
}

#[test]
fn parse_nested_document() {
    let res = parse_text("{\"a\": [1, {\"b\": null}, []], \"c\": {}}").unwrap();
    match res {
        AstNode::Object(_, members, _) => {
            assert_eq!(2, members.len());
            match &members[0] {
                AstNode::Member(key, _, value) => {
                    assert_eq!(TokenLiteral::String("a".to_string()), key.token_literal);
                    match value.as_ref() {
                        AstNode::Array(_, values, _) => {
                            assert_eq!(3, values.len());
                            assert_eq!(
                                AstNode::Value(TokenLiteral::Number("1".to_string())),
                                values[0]
                            );
                        }
                        other => panic!("expected an array, got {:?}", other),
                    }
                }
                other => panic!("expected a member, got {:?}", other),
            }
        }
        other => panic!("expected an object, got {:?}", other),
    }
}

#[test]
fn scalar_documents() {
    assert_eq!(Ok(AstNode::Value(TokenLiteral::Null)), parse_text("null"));
    assert_eq!(
        Ok(AstNode::Value(TokenLiteral::Number("-3.25".to_string()))),
        parse_text(" -3.25 ")
    );
    assert_eq!(
        Ok(AstNode::Value(TokenLiteral::String("x y".to_string()))),
        parse_text("\"x y\"")
    );
}

#[test]
fn trailing_tokens_are_rejected() {
    assert_eq!(
        Err(ParserError::UnexpectedToken(
            "Error at [line:1, between:6-11] Expected end of input".to_string()
        )),
        parse_text("true false")
    );
    assert_eq!(
        Err(ParserError::UnexpectedToken(
            "Error at [line:1, between:4-5] Expected end of input".to_string()
        )),
        parse_text("[1]]")
    );
    assert_eq!(
        Err(ParserError::UnexpectedToken(
            "Error at [line:2, between:1-2] Expected end of input".to_string()
        )),
        parse_text("{}\n{}")
    );
}

#[test]
fn trailing_comma_is_an_error() {
    assert_eq!(
        Err(ParserError::UnexpectedToken(
            "Error at [line:1, between:4-5] Expected value".to_string()
        )),
        parse_text("[1,]")
    );
    assert_eq!(
        Err(ParserError::UnexpectedToken(
            "Error at [line:1, between:9-10] Expected string".to_string()
        )),
        parse_text("{\"a\": 1,}")
    );
}

#[test]
fn structural_errors_name_what_was_expected() {
    assert_eq!(
        Err(ParserError::UnexpectedToken(
            "Error at end of input: Expected value".to_string()
        )),
        parse_text("")
    );
    assert_eq!(
        Err(ParserError::UnexpectedToken(
            "Error at [line:1, between:6-7] Expected :".to_string()
        )),
        parse_text("{\"a\" 1}")
    );
    assert_eq!(
        Err(ParserError::UnexpectedToken(
            "Error at [line:1, between:2-3] Expected string".to_string()
        )),
        parse_text("{1: 2}")
    );
    assert_eq!(
        Err(ParserError::UnexpectedToken(
            "Error at [line:1, between:4-5] Expected , or ]".to_string()
        )),
        parse_text("[1 2]")
    );
    assert_eq!(
        Err(ParserError::UnexpectedToken(
            "Error at end of input: Expected , or }".to_string()
        )),
        parse_text("{\"a\": 1")
    );
    assert_eq!(
        Err(ParserError::UnexpectedToken(
            "Error at [line:1, between:1-2] Expected value".to_string()
        )),
        parse_text("]")
    );
}

#[test]
fn nesting_is_bounded() {
    let deep_ok = format!("{}{}", "[".repeat(128), "]".repeat(128));
    assert!(parse_text(&deep_ok).is_ok());

    let too_deep = format!("{}{}", "[".repeat(129), "]".repeat(129));
    let err = parse_text(&too_deep).unwrap_err();
    assert_eq!(ParserError::NestingTooDeep(TokenPosition::new(1, 129, 130)), err);
    assert_eq!(
        "Error at [line:1, between:129-130] Nesting too deep",
        err.to_string()
    );
}

#[test]
fn unexpected_token_message_is_its_text() {
    let e = ParserError::UnexpectedToken("Expected ]".to_string());
    assert_eq!("Expected ]", e.to_string());
}
