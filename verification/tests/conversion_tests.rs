use lexer::conversion::{operation_of, operations, Operation};
use lexer::{ASTNode, ConversionError, Lexer, Parser, Token};

fn program(source: &str) -> ASTNode {
    let mut lexer = Lexer::new(source.to_string());
    let mut parser = Parser::new(&mut lexer);
    match parser.parse_program() {
        Ok(tree) => tree,
        Err(error) => panic!("{}", error.message()),
    }
}

#[test]
fn every_statement_becomes_an_operation() {
    let tree = program(
        "function f() { } let x = 1 return x if x { } for a; b; c { } while x { } x + 1 y 2 true",
    );
    assert_eq!(
        operations(&tree),
        Ok(vec![
            Operation::Function,
            Operation::Let,
            Operation::Return,
            Operation::If,
            Operation::For,
            Operation::While,
            Operation::BinaryOp,
            Operation::Identifier,
            Operation::IntLiteral,
            Operation::BoolLiteral,
        ])
    );
}

#[test]
fn empty_program_has_no_operations() {
    assert_eq!(operations(&ASTNode::Program(vec![])), Ok(vec![]));
}

#[test]
fn only_a_program_is_converted() {
    assert_eq!(operations(&ASTNode::IntLiteral(1)), Err(ConversionError::ExpectedProgramNode));
    assert_eq!(
        operations(&ASTNode::Return(Box::new(ASTNode::Program(vec![])))),
        Err(ConversionError::ExpectedProgramNode)
    );
}

#[test]
fn a_block_among_the_statements_is_not_converted() {
    let tree = ASTNode::Program(vec![
        ASTNode::IntLiteral(1),
        ASTNode::Program(vec![]),
        ASTNode::IntLiteral(2),
    ]);
    assert_eq!(operations(&tree), Err(ConversionError::UnsupportedASTNode));
    assert_eq!(operation_of(&ASTNode::Program(vec![])), Err(ConversionError::UnsupportedASTNode));
}

#[test]
fn operation_of_each_kind_of_node() {
    let leaf = || Box::new(ASTNode::BoolLiteral(false));
    assert_eq!(
        operation_of(&ASTNode::BinaryOp { op: Token::Star, left: leaf(), right: leaf() }),
        Ok(Operation::BinaryOp)
    );
    assert_eq!(operation_of(&ASTNode::Identifier("a".to_string())), Ok(Operation::Identifier));
    assert_eq!(operation_of(&ASTNode::While { condition: leaf(), body: leaf() }), Ok(Operation::While));
}

#[test]
fn operation_names() {
    assert_eq!(Operation::Function.name(), "func");
    assert_eq!(Operation::Let.name(), "let");
    assert_eq!(Operation::Return.name(), "return");
    assert_eq!(Operation::If.name(), "if");
    assert_eq!(Operation::For.name(), "for");
    assert_eq!(Operation::While.name(), "while");
    assert_eq!(Operation::BinaryOp.name(), "binary_op");
    assert_eq!(Operation::Identifier.name(), "identifier");
    assert_eq!(Operation::IntLiteral.name(), "int_literal");
    assert_eq!(Operation::BoolLiteral.name(), "bool_literal");
}

#[test]
fn conversion_error_messages() {
    assert_eq!(ConversionError::ExpectedProgramNode.message(), "Expected a program node");
    assert_eq!(ConversionError::UnsupportedASTNode.message(), "Unsupported AST node");
}
