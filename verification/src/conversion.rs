//! What a backend is handed: the statements of a whole program, each named
//! by the operation that it becomes.

use vstd::prelude::*;
use crate::parser::ASTNode;

verus! {

/// Why a tree cannot be handed to a backend.
#[derive(Clone, Copy, Debug, PartialEq, Eq)]
pub enum ConversionError {
    /// The tree is not a whole program.
    ExpectedProgramNode,
    /// A statement of the program is itself a block.
    UnsupportedASTNode,
}

impl ConversionError {
    /// The message that describes this error.
    pub open spec fn text(self) -> Seq<char> {
        match self {
            ConversionError::ExpectedProgramNode => "Expected a program node"@,
            ConversionError::UnsupportedASTNode => "Unsupported AST node"@,
        }
    }

    /// Renders the message that describes this error.
    pub fn message(&self) -> (message: String)
        ensures
            message@ == self.text(),
    {
        match self {
            ConversionError::ExpectedProgramNode => "Expected a program node".to_owned(),
            ConversionError::UnsupportedASTNode => "Unsupported AST node".to_owned(),
        }
    }
}

/// The operations that a backend builds, one for each kind of node but the
/// block.
#[derive(Clone, Copy, Debug, PartialEq, Eq)]
pub enum Operation {
    Function,
    Let,
    Return,
    If,
    For,
    While,
    BinaryOp,
    Identifier,
    IntLiteral,
    BoolLiteral,
}

impl Operation {
    /// The name by which a backend knows this operation.
    pub open spec fn text(self) -> Seq<char> {
        match self {
            Operation::Function => "func"@,
            Operation::Let => "let"@,
            Operation::Return => "return"@,
            Operation::If => "if"@,
            Operation::For => "for"@,
            Operation::While => "while"@,
            Operation::BinaryOp => "binary_op"@,
            Operation::Identifier => "identifier"@,
            Operation::IntLiteral => "int_literal"@,
            Operation::BoolLiteral => "bool_literal"@,
        }
    }

    /// The name by which a backend knows this operation.
    pub fn name(&self) -> (name: &'static str)
        ensures
            name@ == self.text(),
    {
        match self {
            Operation::Function => "func",
            Operation::Let => "let",
            Operation::Return => "return",
            Operation::If => "if",
            Operation::For => "for",
            Operation::While => "while",
            Operation::BinaryOp => "binary_op",
            Operation::Identifier => "identifier",
            Operation::IntLiteral => "int_literal",
            Operation::BoolLiteral => "bool_literal",
        }
    }
}

/// The operation that `node` becomes; a block becomes none.
pub open spec fn operation_for(node: ASTNode) -> Option<Operation> {
    match node {
        ASTNode::Program(_) => None,
        ASTNode::Function { .. } => Some(Operation::Function),
        ASTNode::Let { .. } => Some(Operation::Let),
        ASTNode::Return(_) => Some(Operation::Return),
        ASTNode::If { .. } => Some(Operation::If),
        ASTNode::For { .. } => Some(Operation::For),
        ASTNode::While { .. } => Some(Operation::While),
        ASTNode::BinaryOp { .. } => Some(Operation::BinaryOp),
        ASTNode::Identifier(_) => Some(Operation::Identifier),
        ASTNode::IntLiteral(_) => Some(Operation::IntLiteral),
        ASTNode::BoolLiteral(_) => Some(Operation::BoolLiteral),
    }
}

/// The operations of the first `count` of `nodes`, if each of them becomes
/// one.
pub open spec fn operations_for(nodes: Seq<ASTNode>, count: int) -> Option<Seq<Operation>>
    decreases count,
{
    if count <= 0 {
        Some(Seq::empty())
    } else {
        match (operations_for(nodes, count - 1), operation_for(nodes[count - 1])) {
            (Some(before), Some(operation)) => Some(before.push(operation)),
            _ => None,
        }
    }
}

/// The operation that `node` becomes.
pub fn operation_of(node: &ASTNode) -> (result: Result<Operation, ConversionError>)
    ensures
        match operation_for(*node) {
            Some(operation) => result == Ok::<Operation, ConversionError>(operation),
            None => result == Err::<Operation, ConversionError>(
                ConversionError::UnsupportedASTNode,
            ),
        },
{
    match node {
        ASTNode::Program(_) => Err(ConversionError::UnsupportedASTNode),
        ASTNode::Function { .. } => Ok(Operation::Function),
        ASTNode::Let { .. } => Ok(Operation::Let),
        ASTNode::Return(_) => Ok(Operation::Return),
        ASTNode::If { .. } => Ok(Operation::If),
        ASTNode::For { .. } => Ok(Operation::For),
        ASTNode::While { .. } => Ok(Operation::While),
        ASTNode::BinaryOp { .. } => Ok(Operation::BinaryOp),
        ASTNode::Identifier(_) => Ok(Operation::Identifier),
        ASTNode::IntLiteral(_) => Ok(Operation::IntLiteral),
        ASTNode::BoolLiteral(_) => Ok(Operation::BoolLiteral),
    }
}

/// The operations that the statements of the program `ast` become, in
/// order. Only a whole program is taken, and none of its statements may be
/// a block.
pub fn operations(ast: &ASTNode) -> (result: Result<Vec<Operation>, ConversionError>)
    ensures
        match *ast {
            ASTNode::Program(nodes) => match operations_for(nodes@, nodes@.len() as int) {
                Some(list) => result matches Ok(found) && found@ == list,
                None => result == Err::<Vec<Operation>, ConversionError>(
                    ConversionError::UnsupportedASTNode,
                ),
            },
            _ => result == Err::<Vec<Operation>, ConversionError>(
                ConversionError::ExpectedProgramNode,
            ),
        },
{
    match ast {
        ASTNode::Program(nodes) => {
            let mut found: Vec<Operation> = Vec::new();
            let mut at: usize = 0;
            while at < nodes.len()
                invariant
                    *ast matches ASTNode::Program(list) && list == *nodes,
                    at <= nodes.len(),
                    operations_for(nodes@, at as int) == Some(found@),
                decreases nodes.len() - at,
            {
                match operation_of(&nodes[at]) {
                    Ok(operation) => {
                        found.push(operation);
                        at += 1;
                    },
                    Err(error) => {
                        proof {
                            lemma_no_operations(nodes@, at as int, nodes@.len() as int);
                        }
                        return Err(error);
                    },
                }
            }
            Ok(found)
        },
        _ => Err(ConversionError::ExpectedProgramNode),
    }
}

/// Where one node becomes no operation, no longer run of nodes has
/// operations.
proof fn lemma_no_operations(nodes: Seq<ASTNode>, at: int, count: int)
    requires
        0 <= at < count,
        operation_for(nodes[at]) is None,
    ensures
        operations_for(nodes, count) is None,
    decreases count,
{
    if at < count - 1 {
        lemma_no_operations(nodes, at, count - 1);
    }
}

} // verus!
