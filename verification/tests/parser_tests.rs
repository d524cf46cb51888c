use lexer::grammar::ParseErrorKind;
use lexer::{ASTNode, Lexer, ParseError, Parser, Token};

fn parse_program(source: &str) -> Result<ASTNode, ParseError> {
    let mut lexer = Lexer::new(source.to_string());
    let mut parser = Parser::new(&mut lexer);
    parser.parse_program()
}

fn parse_expression(source: &str) -> Result<ASTNode, ParseError> {
    let mut lexer = Lexer::new(source.to_string());
    let mut parser = Parser::new(&mut lexer);
    parser.parse_expression()
}

fn num(value: i32) -> ASTNode {
    ASTNode::IntLiteral(value)
}

fn name(text: &str) -> ASTNode {
    ASTNode::Identifier(text.to_string())
}

fn binary(op: Token, left: ASTNode, right: ASTNode) -> ASTNode {
    ASTNode::BinaryOp { op, left: Box::new(left), right: Box::new(right) }
}

fn let_node(text: &str, value: ASTNode) -> ASTNode {
    ASTNode::Let { name: text.to_string(), value: Box::new(value) }
}

fn failure(kind: ParseErrorKind, token: Token) -> Result<ASTNode, ParseError> {
    Err(ParseError { kind, token })
}

#[test]
fn multiplication_binds_tighter_on_the_right() {
    assert_eq!(
        parse_expression("1 + 2 * 3"),
        Ok(binary(Token::Plus, num(1), binary(Token::Star, num(2), num(3))))
    );
}

#[test]
fn multiplication_binds_tighter_on_the_left() {
    assert_eq!(
        parse_expression("1 * 2 + 3"),
        Ok(binary(Token::Plus, binary(Token::Star, num(1), num(2)), num(3)))
    );
}

#[test]
fn equal_operators_group_to_the_left() {
    assert_eq!(
        parse_expression("1 - 2 - 3"),
        Ok(binary(Token::Minus, binary(Token::Minus, num(1), num(2)), num(3)))
    );
    assert_eq!(
        parse_expression("8 / 4 * 2"),
        Ok(binary(Token::Star, binary(Token::Slash, num(8), num(4)), num(2)))
    );
    assert_eq!(
        parse_expression("a = b = c"),
        Ok(binary(Token::Equals, binary(Token::Equals, name("a"), name("b")), name("c")))
    );
}

#[test]
fn assignment_binds_weakest() {
    assert_eq!(
        parse_expression("a = b + c * d"),
        Ok(binary(
            Token::Equals,
            name("a"),
            binary(Token::Plus, name("b"), binary(Token::Star, name("c"), name("d")))
        ))
    );
}

#[test]
fn parentheses_override_precedence() {
    assert_eq!(
        parse_expression("(1 + 2) * 3"),
        Ok(binary(Token::Star, binary(Token::Plus, num(1), num(2)), num(3)))
    );
    assert_eq!(parse_expression("((x))"), Ok(name("x")));
}

#[test]
fn literals_are_operands() {
    assert_eq!(parse_expression("true"), Ok(ASTNode::BoolLiteral(true)));
    assert_eq!(parse_expression("false"), Ok(ASTNode::BoolLiteral(false)));
    assert_eq!(parse_expression("42"), Ok(num(42)));
    assert_eq!(parse_expression("\"text\""), Ok(name("text")));
}

#[test]
fn expression_stops_at_what_is_no_operator() {
    let mut lexer = Lexer::new("1 + 2 ) 3".to_string());
    let mut parser = Parser::new(&mut lexer);
    assert_eq!(parser.parse_expression(), Ok(binary(Token::Plus, num(1), num(2))));
    assert_eq!(
        parser.parse_expression(),
        failure(ParseErrorKind::UnexpectedToken, Token::RParen)
    );
}

#[test]
fn let_statement_end_to_end() {
    assert_eq!(
        parse_program("let x = 1 + 2 * 3"),
        Ok(ASTNode::Program(vec![let_node(
            "x",
            binary(Token::Plus, num(1), binary(Token::Star, num(2), num(3)))
        )]))
    );
}

#[test]
fn function_end_to_end() {
    assert_eq!(
        parse_program("function f(a, b) { return a + b; }"),
        Ok(ASTNode::Program(vec![ASTNode::Function {
            name: "f".to_string(),
            params: vec!["a".to_string(), "b".to_string()],
            body: Box::new(ASTNode::Program(vec![ASTNode::Return(Box::new(binary(
                Token::Plus,
                name("a"),
                name("b")
            )))])),
        }]))
    );
}

#[test]
fn missing_identifier_after_let_is_a_failure() {
    assert_eq!(
        parse_program("let = 5"),
        failure(ParseErrorKind::ExpectedIdentifierAfterLet, Token::Equals)
    );
}

#[test]
fn empty_program() {
    assert_eq!(parse_program(""), Ok(ASTNode::Program(vec![])));
    assert_eq!(parse_program("/* nothing */ // at all"), Ok(ASTNode::Program(vec![])));
}

#[test]
fn statements_with_and_without_semicolons() {
    let expected = Ok(ASTNode::Program(vec![let_node("x", num(1)), let_node("y", num(2)), name("x")]));
    assert_eq!(parse_program("let x = 1; let y = 2; x;"), expected);
    assert_eq!(parse_program("let x = 1 let y = 2 x"), expected);
}

#[test]
fn a_second_semicolon_is_no_statement() {
    assert_eq!(
        parse_program("let x = 1;;"),
        failure(ParseErrorKind::UnexpectedToken, Token::Semicolon)
    );
}

#[test]
fn function_without_parameters() {
    assert_eq!(
        parse_program("function main() { }"),
        Ok(ASTNode::Program(vec![ASTNode::Function {
            name: "main".to_string(),
            params: vec![],
            body: Box::new(ASTNode::Program(vec![])),
        }]))
    );
}

#[test]
fn function_failures() {
    assert_eq!(
        parse_program("function (a) { }"),
        failure(ParseErrorKind::ExpectedIdentifierAfterFunction, Token::LParen)
    );
    assert_eq!(
        parse_program("function f a) { }"),
        failure(ParseErrorKind::ExpectedLParenAfterFunctionName, Token::Identifier("a".to_string()))
    );
    assert_eq!(
        parse_program("function f(a b) { }"),
        failure(ParseErrorKind::ExpectedRParenAfterParameters, Token::Identifier("b".to_string()))
    );
    assert_eq!(
        parse_program("function f(a,) { }"),
        failure(ParseErrorKind::ExpectedIdentifierInParameters, Token::RParen)
    );
    assert_eq!(
        parse_program("function f(1) { }"),
        failure(ParseErrorKind::ExpectedIdentifierInParameters, Token::IntLiteral(1))
    );
    assert_eq!(
        parse_program("function f(a) return a"),
        failure(ParseErrorKind::ExpectedLBraceAfterParameters, Token::Return)
    );
    assert_eq!(
        parse_program("function f(a"),
        failure(ParseErrorKind::ExpectedRParenAfterParameters, Token::Eof)
    );
}

#[test]
fn let_failures() {
    assert_eq!(
        parse_program("let x 5"),
        failure(ParseErrorKind::ExpectedEqualsAfterLet, Token::IntLiteral(5))
    );
    assert_eq!(
        parse_program("let x: int = 5"),
        failure(ParseErrorKind::ExpectedEqualsAfterLet, Token::Colon)
    );
    assert_eq!(parse_program("let x ="), failure(ParseErrorKind::UnexpectedToken, Token::Eof));
}

#[test]
fn if_with_and_without_else() {
    assert_eq!(
        parse_program("if x { y }"),
        Ok(ASTNode::Program(vec![ASTNode::If {
            condition: Box::new(name("x")),
            then_branch: Box::new(ASTNode::Program(vec![name("y")])),
            else_branch: None,
        }]))
    );
    assert_eq!(
        parse_program("if true { 1 } else { 2 }"),
        Ok(ASTNode::Program(vec![ASTNode::If {
            condition: Box::new(ASTNode::BoolLiteral(true)),
            then_branch: Box::new(ASTNode::Program(vec![num(1)])),
            else_branch: Some(Box::new(ASTNode::Program(vec![num(2)]))),
        }]))
    );
}

#[test]
fn if_failures() {
    assert_eq!(parse_program("if x y"), failure(
        ParseErrorKind::ExpectedLBraceAfterIf,
        Token::Identifier("y".to_string())
    ));
    assert_eq!(
        parse_program("if x { } else y"),
        failure(ParseErrorKind::ExpectedLBraceAfterElse, Token::Identifier("y".to_string()))
    );
}

#[test]
fn while_loop() {
    assert_eq!(
        parse_program("while x { x = x - 1; }"),
        Ok(ASTNode::Program(vec![ASTNode::While {
            condition: Box::new(name("x")),
            body: Box::new(ASTNode::Program(vec![binary(
                Token::Equals,
                name("x"),
                binary(Token::Minus, name("x"), num(1))
            )])),
        }]))
    );
    assert_eq!(
        parse_program("while x x"),
        failure(ParseErrorKind::ExpectedLBraceAfterWhile, Token::Identifier("x".to_string()))
    );
}

#[test]
fn for_loop_with_and_without_separators() {
    let expected = Ok(ASTNode::Program(vec![ASTNode::For {
        init: Box::new(let_node("i", num(0))),
        condition: Box::new(name("i")),
        increment: Box::new(binary(Token::Equals, name("i"), binary(Token::Plus, name("i"), num(1)))),
        body: Box::new(ASTNode::Program(vec![name("f")])),
    }]));
    assert_eq!(parse_program("for let i = 0; i; i = i + 1 { f }"), expected);
    assert_eq!(parse_program("for let i = 0; i; i = i + 1; { f; }"), expected);
}

#[test]
fn for_loop_without_separator_reads_on() {
    // Without `;` the condition is not over after `0`: `0 i` is no
    // expression, but `let i = 0 - i` is one statement.
    assert_eq!(
        parse_program("for let i = 0 - i j k { }"),
        Ok(ASTNode::Program(vec![ASTNode::For {
            init: Box::new(let_node("i", binary(Token::Minus, num(0), name("i")))),
            condition: Box::new(name("j")),
            increment: Box::new(name("k")),
            body: Box::new(ASTNode::Program(vec![])),
        }]))
    );
}

#[test]
fn for_failures() {
    assert_eq!(
        parse_program("for (let i = 0; i; i) { }"),
        failure(ParseErrorKind::UnexpectedToken, Token::Let)
    );
    assert_eq!(
        parse_program("for a; b; c d"),
        failure(ParseErrorKind::ExpectedLBraceAfterFor, Token::Identifier("d".to_string()))
    );
}

#[test]
fn block_that_is_not_closed() {
    assert_eq!(parse_program("while x { y"), failure(ParseErrorKind::ExpectedRBrace, Token::Eof));
    assert_eq!(
        parse_program("function f() { if a { b }"),
        failure(ParseErrorKind::ExpectedRBrace, Token::Eof)
    );
}

#[test]
fn parenthesis_that_is_not_closed() {
    assert_eq!(
        parse_program("(1 + 2"),
        failure(ParseErrorKind::ExpectedRParenAfterExpression, Token::Eof)
    );
    assert_eq!(
        parse_program("(1 + 2 }"),
        failure(ParseErrorKind::ExpectedRParenAfterExpression, Token::RBrace)
    );
}

#[test]
fn unexpected_tokens_at_operand_position() {
    assert_eq!(parse_program("+"), failure(ParseErrorKind::UnexpectedToken, Token::Plus));
    assert_eq!(parse_program("1 + }"), failure(ParseErrorKind::UnexpectedToken, Token::RBrace));
    assert_eq!(parse_program("else"), failure(ParseErrorKind::UnexpectedToken, Token::Else));
}

#[test]
fn lexical_error_is_fatal_wherever_it_surfaces() {
    let bad = Token::Error("Invalid character: #".to_string());
    assert_eq!(parse_program("#"), failure(ParseErrorKind::LexicalError, bad.clone()));
    assert_eq!(parse_program("let # = 1"), failure(ParseErrorKind::LexicalError, bad.clone()));
    assert_eq!(parse_program("let x # 1"), failure(ParseErrorKind::LexicalError, bad.clone()));
    assert_eq!(parse_program("function f(#) { }"), failure(ParseErrorKind::LexicalError, bad.clone()));
    assert_eq!(parse_program("1 #"), failure(ParseErrorKind::LexicalError, bad.clone()));
    assert_eq!(parse_program("while x { # }"), failure(ParseErrorKind::LexicalError, bad));
    assert_eq!(
        parse_program("let x = 99999999999"),
        failure(ParseErrorKind::LexicalError, Token::Error("Integer literal out of range".to_string()))
    );
    assert_eq!(
        parse_program("x /* open"),
        failure(
            ParseErrorKind::LexicalError,
            Token::Error("Unterminated multi-line comment".to_string())
        )
    );
}

#[test]
fn rules_reject_another_first_token() {
    let mut lexer = Lexer::new("x = 1".to_string());
    let mut parser = Parser::new(&mut lexer);
    assert_eq!(
        parser.parse_let(),
        failure(ParseErrorKind::UnexpectedToken, Token::Identifier("x".to_string()))
    );
    let mut lexer = Lexer::new("let".to_string());
    let mut parser = Parser::new(&mut lexer);
    assert_eq!(parser.parse_while(), failure(ParseErrorKind::UnexpectedToken, Token::Let));
}

#[test]
fn block_is_parsed_behind_its_opening_brace() {
    let mut lexer = Lexer::new("a; b } c".to_string());
    let mut parser = Parser::new(&mut lexer);
    assert_eq!(parser.parse_block(), Ok(ASTNode::Program(vec![name("a"), name("b")])));
    assert_eq!(parser.parse_statement(), Ok(name("c")));
}

#[test]
fn parameters_are_parsed_behind_the_opening_parenthesis() {
    let mut lexer = Lexer::new("a, b, c) x".to_string());
    let mut parser = Parser::new(&mut lexer);
    assert_eq!(
        parser.parse_parameters(),
        Ok(vec!["a".to_string(), "b".to_string(), "c".to_string()])
    );
    assert_eq!(parser.parse_primary(), Ok(name("x")));
}

#[test]
fn parser_starts_where_the_scanner_stands() {
    let mut lexer = Lexer::new("let x = 1".to_string());
    assert_eq!(lexer.next_token(), Token::Let);
    let mut parser = Parser::new(&mut lexer);
    assert_eq!(
        parser.parse_program(),
        Ok(ASTNode::Program(vec![binary(Token::Equals, name("x"), num(1))]))
    );
}

#[test]
fn parsing_is_repeatable() {
    let source = "function f(a, b) { if a { return a * (b + 1); } else { while b { b = b - 1 } } }";
    let first = parse_program(source);
    assert!(first.is_ok());
    assert_eq!(first, parse_program(source));
}

#[test]
fn nested_blocks() {
    assert_eq!(
        parse_program("while a { while b { c } d }"),
        Ok(ASTNode::Program(vec![ASTNode::While {
            condition: Box::new(name("a")),
            body: Box::new(ASTNode::Program(vec![
                ASTNode::While {
                    condition: Box::new(name("b")),
                    body: Box::new(ASTNode::Program(vec![name("c")])),
                },
                name("d"),
            ])),
        }]))
    );
}

#[test]
fn parse_error_messages() {
    let error = ParseError { kind: ParseErrorKind::ExpectedIdentifierAfterLet, token: Token::Equals };
    assert_eq!(error.message(), "Expected identifier after let");
    assert_eq!(ParseErrorKind::LexicalError.message(), "Lexical error");
    assert_eq!(ParseErrorKind::ExpectedEqualsAfterLet.message(), "Expected '=' after let declaration");
    assert_eq!(
        ParseErrorKind::ExpectedIdentifierAfterFunction.message(),
        "Expected identifier after function"
    );
    assert_eq!(
        ParseErrorKind::ExpectedLParenAfterFunctionName.message(),
        "Expected '(' after function name"
    );
    assert_eq!(
        ParseErrorKind::ExpectedIdentifierInParameters.message(),
        "Expected identifier in function parameters"
    );
    assert_eq!(
        ParseErrorKind::ExpectedRParenAfterParameters.message(),
        "Expected ',' or ')' after function parameter"
    );
    assert_eq!(
        ParseErrorKind::ExpectedLBraceAfterParameters.message(),
        "Expected '{' after function parameters"
    );
    assert_eq!(ParseErrorKind::ExpectedLBraceAfterIf.message(), "Expected '{' after if condition");
    assert_eq!(ParseErrorKind::ExpectedLBraceAfterElse.message(), "Expected '{' after else");
    assert_eq!(ParseErrorKind::ExpectedLBraceAfterFor.message(), "Expected '{' after for loop");
    assert_eq!(
        ParseErrorKind::ExpectedLBraceAfterWhile.message(),
        "Expected '{' after while condition"
    );
    assert_eq!(ParseErrorKind::ExpectedRBrace.message(), "Expected '}' at end of block");
    assert_eq!(
        ParseErrorKind::ExpectedRParenAfterExpression.message(),
        "Expected ')' after expression"
    );
    assert_eq!(ParseErrorKind::UnexpectedToken.message(), "Unexpected token");
    assert_eq!(
        ParseError::unexpected(ParseErrorKind::ExpectedRBrace, Token::Error("e".to_string())),
        ParseError { kind: ParseErrorKind::LexicalError, token: Token::Error("e".to_string()) }
    );
    assert_eq!(
        ParseError::unexpected(ParseErrorKind::ExpectedRBrace, Token::Eof),
        ParseError { kind: ParseErrorKind::ExpectedRBrace, token: Token::Eof }
    );
}
