//! The parser: recursive descent over the tokens of one scanner, with one
//! token of lookahead.

use vstd::prelude::*;
use crate::grammar;
use crate::grammar::{Failure, Outcome, ParseErrorKind, Syntax};
use crate::lexer::{Lexer, Token};
use crate::lexical;
use crate::lexical::Lexeme;

verus! {

/// A node of the syntax tree. A block, like a whole program, is a `Program`
/// node that holds its statements.
#[derive(Debug, PartialEq)]
pub enum ASTNode {
    Program(Vec<ASTNode>),
    Function { name: String, params: Vec<String>, body: Box<ASTNode> },
    Let { name: String, value: Box<ASTNode> },
    Return(Box<ASTNode>),
    If { condition: Box<ASTNode>, then_branch: Box<ASTNode>, else_branch: Option<Box<ASTNode>> },
    For { init: Box<ASTNode>, condition: Box<ASTNode>, increment: Box<ASTNode>, body: Box<ASTNode> },
    While { condition: Box<ASTNode>, body: Box<ASTNode> },
    BinaryOp { op: Token, left: Box<ASTNode>, right: Box<ASTNode> },
    Identifier(String),
    IntLiteral(i32),
    BoolLiteral(bool),
}

/// The values of a sequence of names.
pub open spec fn names(params: Seq<String>) -> Seq<Seq<char>> {
    Seq::new(params.len(), |i: int| params[i]@)
}

/// The values of a sequence of nodes.
pub open spec fn trees(nodes: Seq<ASTNode>) -> Seq<Syntax> {
    Seq::new(nodes.len(), |i: int| nodes[i]@)
}

impl ASTNode {
    /// The value of this node.
    pub open spec fn syntax(&self) -> Syntax
        decreases self,
    {
        match self {
            ASTNode::Program(nodes) => Syntax::Program(
                Seq::new(
                    nodes.len() as nat,
                    |i: int|
                        if 0 <= i < nodes.len() {
                            nodes[i].syntax()
                        } else {
                            Syntax::Program(Seq::empty())
                        },
                ),
            ),
            ASTNode::Function { name, params, body } => Syntax::Function {
                name: name@,
                params: names(params@),
                body: Box::new(body.syntax()),
            },
            ASTNode::Let { name, value } => Syntax::Let {
                name: name@,
                value: Box::new(value.syntax()),
            },
            ASTNode::Return(value) => Syntax::Return(Box::new(value.syntax())),
            ASTNode::If { condition, then_branch, else_branch } => Syntax::If {
                condition: Box::new(condition.syntax()),
                then_branch: Box::new(then_branch.syntax()),
                else_branch: match else_branch {
                    Some(branch) => Some(Box::new(branch.syntax())),
                    None => None,
                },
            },
            ASTNode::For { init, condition, increment, body } => Syntax::For {
                init: Box::new(init.syntax()),
                condition: Box::new(condition.syntax()),
                increment: Box::new(increment.syntax()),
                body: Box::new(body.syntax()),
            },
            ASTNode::While { condition, body } => Syntax::While {
                condition: Box::new(condition.syntax()),
                body: Box::new(body.syntax()),
            },
            ASTNode::BinaryOp { op, left, right } => Syntax::BinaryOp {
                op: op@,
                left: Box::new(left.syntax()),
                right: Box::new(right.syntax()),
            },
            ASTNode::Identifier(name) => Syntax::Identifier(name@),
            ASTNode::IntLiteral(value) => Syntax::IntLiteral(*value),
            ASTNode::BoolLiteral(value) => Syntax::BoolLiteral(*value),
        }
    }

    /// The value of a `Program` node holds the values of its statements,
    /// in order.
    pub proof fn lemma_program(nodes: Vec<ASTNode>)
        ensures
            ASTNode::Program(nodes)@ == Syntax::Program(trees(nodes@)),
    {
        assert(ASTNode::Program(nodes).syntax()->Program_0 =~= trees(nodes@));
    }
}

impl View for ASTNode {
    type V = Syntax;

    open spec fn view(&self) -> Syntax {
        self.syntax()
    }
}

/// Why a parse ended without a tree: what the parser expected, and the
/// token that it found.
#[derive(Debug, PartialEq)]
pub struct ParseError {
    pub kind: ParseErrorKind,
    pub token: Token,
}

impl View for ParseError {
    type V = Failure;

    open spec fn view(&self) -> Failure {
        Failure { kind: self.kind, token: self.token@ }
    }
}

impl ParseError {
    /// The failure for finding `token` where `kind` says what was due. An
    /// error token is reported as a lexical error, whatever was due.
    pub fn unexpected(kind: ParseErrorKind, token: Token) -> (error: ParseError)
        ensures
            error@ == grammar::unexpected(kind, token@),
    {
        match token {
            Token::Error(_) => ParseError { kind: ParseErrorKind::LexicalError, token },
            _ => ParseError { kind, token },
        }
    }

    /// Renders the message of this failure.
    pub fn message(&self) -> (message: String)
        ensures
            message@ == self.kind.text(),
    {
        self.kind.message()
    }
}

/// A parser over the tokens that one scanner still has to deliver.
///
/// It borrows the scanner for as long as it lives and holds one token of
/// lookahead. The first failure ends the parse: the token at fault leaves
/// the parser with the failure, and the parser is not meant to be used
/// again.
pub struct Parser<'a> {
    lexer: &'a mut Lexer,
    current_token: Token,
}

/// Whether `result` is what `outcome` says, with `remaining` the tokens
/// that are left: the same tree and the same tokens left, or the same
/// failure.
pub open spec fn agrees(
    result: Result<ASTNode, ParseError>,
    remaining: Seq<Lexeme>,
    outcome: Outcome,
) -> bool {
    match outcome {
        Ok((tree, after)) => result matches Ok(node) && node@ == tree && remaining == after,
        Err(failure) => result matches Err(error) && error@ == failure,
    }
}

impl<'a> Parser<'a> {
    /// The scanner is well formed.
    pub closed spec fn well_formed(&self) -> bool {
        self.lexer.well_formed()
    }

    /// The tokens that the scanner has yet to deliver, up to and including
    /// the first `Eof`.
    pub closed spec fn upcoming(&self) -> Seq<Lexeme> {
        lexical::tokens_from(self.lexer.source(), self.lexer.cursor())
    }

    /// The tokens that are left to parse: the lookahead, and behind it, unless
    /// it is `Eof`, the tokens that the scanner has yet to deliver.
    pub closed spec fn remaining(&self) -> Seq<Lexeme> {
        if self.current_token@ is Eof {
            seq![Lexeme::Eof]
        } else {
            seq![self.current_token@] + self.upcoming()
        }
    }

    /// A parser for the tokens that `lexer` has yet to deliver.
    pub fn new(lexer: &'a mut Lexer) -> (parser: Parser<'a>)
        requires
            old(lexer).well_formed(),
        ensures
            parser.well_formed(),
            parser.remaining() == lexical::tokens_from(old(lexer).source(), old(lexer).cursor()),
    {
        proof {
            lexical::lemma_tokens_from_unfold(lexer.source(), lexer.cursor());
        }
        let current_token = lexer.next_token();
        Parser { lexer, current_token }
    }

    /// Takes the lookahead out of the parser and leaves `Eof` in its place;
    /// the scanner stays where it is.
    fn take(&mut self) -> (token: Token)
        requires
            old(self).well_formed(),
        ensures
            final(self).well_formed(),
            final(self).upcoming() == old(self).upcoming(),
            token@ == grammar::first(old(self).remaining()),
            !(token@ is Eof) ==> old(self).upcoming() == grammar::rest(old(self).remaining()),
            token@ is Eof ==> final(self).remaining() == old(self).remaining(),
    {
        proof {
            assert(!(self.current_token@ is Eof) ==> self.remaining().skip(1) =~= self.upcoming());
        }
        let mut token = Token::Eof;
        core::mem::swap(&mut self.current_token, &mut token);
        token
    }

    /// Replaces the lookahead by the next token of the scanner.
    fn refill(&mut self)
        requires
            old(self).well_formed(),
        ensures
            final(self).well_formed(),
            final(self).remaining() == old(self).upcoming(),
    {
        proof {
            lexical::lemma_tokens_from_unfold(self.lexer.source(), self.lexer.cursor());
        }
        self.current_token = self.lexer.next_token();
    }

    /// Passes over the lookahead, which is not `Eof`.
    fn advance(&mut self)
        requires
            old(self).well_formed(),
            !(grammar::first(old(self).remaining()) is Eof),
        ensures
            final(self).well_formed(),
            final(self).remaining() == grammar::rest(old(self).remaining()),
            final(self).remaining().len() < old(self).remaining().len(),
    {
        proof {
            lexical::lemma_tokens_from_unfold(self.lexer.source(), self.lexer.cursor());
            assert(self.remaining().skip(1) =~= self.upcoming());
        }
        self.current_token = self.lexer.next_token();
    }

    /// The failure for finding the lookahead where `kind` says what was due.
    /// The lookahead goes into the failure.
    fn fail(&mut self, kind: ParseErrorKind) -> (error: ParseError)
        requires
            old(self).well_formed(),
        ensures
            final(self).well_formed(),
            error@ == grammar::unexpected(kind, grammar::first(old(self).remaining())),
    {
        ParseError::unexpected(kind, self.take())
    }

    /// The lookahead, if it is a binary operator.
    fn get_operator(&self) -> (operator: Option<Token>)
        ensures
            match operator {
                Some(token) => token@ == grammar::first(self.remaining())
                    && grammar::is_binary_operator(token@),
                None => !grammar::is_binary_operator(grammar::first(self.remaining())),
            },
    {
        match self.current_token {
            Token::Plus => Some(Token::Plus),
            Token::Minus => Some(Token::Minus),
            Token::Star => Some(Token::Star),
            Token::Slash => Some(Token::Slash),
            Token::Equals => Some(Token::Equals),
            _ => None,
        }
    }

    /// How strongly `token` binds as an operator; 0 if it is none.
    fn get_precedence(&self, token: &Token) -> (precedence: u8)
        ensures
            precedence == grammar::precedence_of(token@),
    {
        match token {
            Token::Equals => 1,
            Token::Plus | Token::Minus => 2,
            Token::Star | Token::Slash => 3,
            _ => 0,
        }
    }

    /// Parses an operand: a name, a literal, or an expression in
    /// parentheses.
    #[verifier::rlimit(50)]
    pub fn parse_primary(&mut self) -> (result: Result<ASTNode, ParseError>)
        requires
            old(self).well_formed(),
        ensures
            final(self).well_formed(),
            agrees(result, final(self).remaining(), grammar::primary(old(self).remaining())),
        decreases old(self).remaining().len(), 0nat,
    {
        match self.take() {
            Token::Identifier(name) => {
                self.refill();
                Ok(ASTNode::Identifier(name))
            },
            Token::IntLiteral(value) => {
                self.refill();
                Ok(ASTNode::IntLiteral(value))
            },
            Token::True => {
                self.refill();
                Ok(ASTNode::BoolLiteral(true))
            },
            Token::False => {
                self.refill();
                Ok(ASTNode::BoolLiteral(false))
            },
            Token::LParen => {
                self.refill();
                match self.parse_expression() {
                    Ok(inner) => {
                        if matches!(self.current_token, Token::RParen) {
                            self.advance();
                            Ok(inner)
                        } else {
                            Err(self.fail(ParseErrorKind::ExpectedRParenAfterExpression))
                        }
                    },
                    Err(error) => Err(error),
                }
            },
            token => Err(ParseError::unexpected(ParseErrorKind::UnexpectedToken, token)),
        }
    }

    /// Parses an operand and the operators that follow it, as far as they
    /// bind at least as strongly as `min_precedence`.
    #[verifier::rlimit(50)]
    pub fn parse_precedence(&mut self, min_precedence: u8) -> (result: Result<
        ASTNode,
        ParseError,
    >)
        requires
            old(self).well_formed(),
        ensures
            final(self).well_formed(),
            agrees(
                result,
                final(self).remaining(),
                grammar::precedence(old(self).remaining(), min_precedence as nat),
            ),
        decreases old(self).remaining().len(), 1nat,
    {
        proof {
            grammar::lemma_primary_consumes(self.remaining());
        }
        let mut left = match self.parse_primary() {
            Ok(node) => node,
            Err(error) => {
                return Err(error);
            },
        };
        loop
            invariant
                self.well_formed(),
                self.remaining().len() < old(self).remaining().len(),
                grammar::climb(left@, self.remaining(), min_precedence as nat)
                    == grammar::precedence(old(self).remaining(), min_precedence as nat),
            decreases self.remaining().len(),
        {
            let op = match self.get_operator() {
                Some(op) => op,
                None => {
                    return Ok(left);
                },
            };
            let precedence = self.get_precedence(&op);
            if precedence < min_precedence {
                return Ok(left);
            }
            proof {
                grammar::lemma_precedence_consumes(
                    grammar::rest(self.remaining()),
                    (precedence + 1) as nat,
                );
            }
            self.advance();
            let right = match self.parse_precedence(precedence + 1) {
                Ok(node) => node,
                Err(error) => {
                    return Err(error);
                },
            };
            left = ASTNode::BinaryOp { op, left: Box::new(left), right: Box::new(right) };
        }
    }

    /// Parses an expression.
    pub fn parse_expression(&mut self) -> (result: Result<ASTNode, ParseError>)
        requires
            old(self).well_formed(),
        ensures
            final(self).well_formed(),
            agrees(result, final(self).remaining(), grammar::expression(old(self).remaining())),
        decreases old(self).remaining().len(), 2nat,
    {
        self.parse_precedence(0)
    }

    /// Passes over the lookahead if it is a name, and returns the name;
    /// fails with `kind` if it is not.
    fn expect_identifier(&mut self, kind: ParseErrorKind) -> (result: Result<String, ParseError>)
        requires
            old(self).well_formed(),
        ensures
            final(self).well_formed(),
            match grammar::first(old(self).remaining()) {
                Lexeme::Identifier(name) => result matches Ok(text) && text@ == name
                    && final(self).remaining() == grammar::rest(old(self).remaining())
                    && final(self).remaining().len() < old(self).remaining().len(),
                token => result matches Err(error) && error@ == grammar::unexpected(kind, token),
            },
    {
        match self.take() {
            Token::Identifier(name) => {
                self.refill();
                Ok(name)
            },
            token => Err(ParseError::unexpected(kind, token)),
        }
    }

    /// Passes over the lookahead if it is a `;`.
    fn skip_semicolon(&mut self)
        requires
            old(self).well_formed(),
        ensures
            final(self).well_formed(),
            final(self).remaining() == grammar::past_semicolon(old(self).remaining()),
    {
        if matches!(self.current_token, Token::Semicolon) {
            self.advance();
        }
    }

    /// Parses the parameters of a function, behind the opening parenthesis,
    /// up to and including the closing one.
    #[verifier::rlimit(50)]
    pub fn parse_parameters(&mut self) -> (result: Result<Vec<String>, ParseError>)
        requires
            old(self).well_formed(),
        ensures
            final(self).well_formed(),
            match grammar::parameters(old(self).remaining()) {
                Ok((list, after)) => result matches Ok(params) && names(params@) == list
                    && final(self).remaining() == after,
                Err(failure) => result matches Err(error) && error@ == failure,
            },
    {
        let mut params: Vec<String> = Vec::new();
        if matches!(self.current_token, Token::RParen) {
            self.advance();
            assert(names(params@) =~= Seq::<Seq<char>>::empty());
            return Ok(params);
        }
        assert(names(params@) =~= Seq::<Seq<char>>::empty());
        loop
            invariant
                self.well_formed(),
                grammar::more_parameters(self.remaining(), names(params@))
                    == grammar::parameters(old(self).remaining()),
            decreases self.remaining().len(),
        {
            let ghost before = names(params@);
            let name = match self.expect_identifier(ParseErrorKind::ExpectedIdentifierInParameters) {
                Ok(name) => name,
                Err(error) => {
                    return Err(error);
                },
            };
            params.push(name);
            assert(names(params@) =~= before.push(name@));
            if matches!(self.current_token, Token::Comma) {
                self.advance();
            } else if matches!(self.current_token, Token::RParen) {
                self.advance();
                return Ok(params);
            } else {
                return Err(self.fail(ParseErrorKind::ExpectedRParenAfterParameters));
            }
        }
    }

    /// Parses `let` *name* `=` *expression*.
    #[verifier::rlimit(50)]
    pub fn parse_let(&mut self) -> (result: Result<ASTNode, ParseError>)
        requires
            old(self).well_formed(),
        ensures
            final(self).well_formed(),
            agrees(result, final(self).remaining(), grammar::let_binding(old(self).remaining())),
        decreases old(self).remaining().len(), 3nat,
    {
        if !matches!(self.current_token, Token::Let) {
            return Err(self.fail(ParseErrorKind::UnexpectedToken));
        }
        self.advance();
        let name = match self.expect_identifier(ParseErrorKind::ExpectedIdentifierAfterLet) {
            Ok(name) => name,
            Err(error) => {
                return Err(error);
            },
        };
        if !matches!(self.current_token, Token::Equals) {
            return Err(self.fail(ParseErrorKind::ExpectedEqualsAfterLet));
        }
        self.advance();
        match self.parse_expression() {
            Ok(value) => Ok(ASTNode::Let { name, value: Box::new(value) }),
            Err(error) => Err(error),
        }
    }

    /// Parses `function` *name* `(` *parameters* `)` `{` *block*.
    #[verifier::rlimit(50)]
    pub fn parse_function(&mut self) -> (result: Result<ASTNode, ParseError>)
        requires
            old(self).well_formed(),
        ensures
            final(self).well_formed(),
            agrees(result, final(self).remaining(), grammar::function(old(self).remaining())),
        decreases old(self).remaining().len(), 3nat,
    {
        if !matches!(self.current_token, Token::Function) {
            return Err(self.fail(ParseErrorKind::UnexpectedToken));
        }
        self.advance();
        let name = match self.expect_identifier(ParseErrorKind::ExpectedIdentifierAfterFunction) {
            Ok(name) => name,
            Err(error) => {
                return Err(error);
            },
        };
        if !matches!(self.current_token, Token::LParen) {
            return Err(self.fail(ParseErrorKind::ExpectedLParenAfterFunctionName));
        }
        self.advance();
        proof {
            grammar::lemma_parameters_consume(self.remaining());
        }
        let params = match self.parse_parameters() {
            Ok(params) => params,
            Err(error) => {
                return Err(error);
            },
        };
        if !matches!(self.current_token, Token::LBrace) {
            return Err(self.fail(ParseErrorKind::ExpectedLBraceAfterParameters));
        }
        self.advance();
        match self.parse_block() {
            Ok(body) => Ok(ASTNode::Function { name, params, body: Box::new(body) }),
            Err(error) => Err(error),
        }
    }

    /// Parses `return` *expression*.
    pub fn parse_return(&mut self) -> (result: Result<ASTNode, ParseError>)
        requires
            old(self).well_formed(),
        ensures
            final(self).well_formed(),
            agrees(
                result,
                final(self).remaining(),
                grammar::return_statement(old(self).remaining()),
            ),
        decreases old(self).remaining().len(), 3nat,
    {
        if !matches!(self.current_token, Token::Return) {
            return Err(self.fail(ParseErrorKind::UnexpectedToken));
        }
        self.advance();
        match self.parse_expression() {
            Ok(value) => Ok(ASTNode::Return(Box::new(value))),
            Err(error) => Err(error),
        }
    }

    /// Parses `if` *expression* `{` *block*, and `else` `{` *block* where
    /// an `else` follows.
    #[verifier::rlimit(100)]
    pub fn parse_if(&mut self) -> (result: Result<ASTNode, ParseError>)
        requires
            old(self).well_formed(),
        ensures
            final(self).well_formed(),
            agrees(result, final(self).remaining(), grammar::if_statement(old(self).remaining())),
        decreases old(self).remaining().len(), 3nat,
    {
        if !matches!(self.current_token, Token::If) {
            return Err(self.fail(ParseErrorKind::UnexpectedToken));
        }
        self.advance();
        proof {
            grammar::lemma_expression_consumes(self.remaining());
        }
        let condition = match self.parse_expression() {
            Ok(node) => node,
            Err(error) => {
                return Err(error);
            },
        };
        if !matches!(self.current_token, Token::LBrace) {
            return Err(self.fail(ParseErrorKind::ExpectedLBraceAfterIf));
        }
        self.advance();
        proof {
            grammar::lemma_block_consumes(self.remaining(), Seq::empty());
        }
        let then_branch = match self.parse_block() {
            Ok(node) => node,
            Err(error) => {
                return Err(error);
            },
        };
        if !matches!(self.current_token, Token::Else) {
            return Ok(
                ASTNode::If {
                    condition: Box::new(condition),
                    then_branch: Box::new(then_branch),
                    else_branch: None,
                },
            );
        }
        self.advance();
        if !matches!(self.current_token, Token::LBrace) {
            return Err(self.fail(ParseErrorKind::ExpectedLBraceAfterElse));
        }
        self.advance();
        match self.parse_block() {
            Ok(else_branch) => Ok(
                ASTNode::If {
                    condition: Box::new(condition),
                    then_branch: Box::new(then_branch),
                    else_branch: Some(Box::new(else_branch)),
                },
            ),
            Err(error) => Err(error),
        }
    }

    /// Parses `for` *statement* *expression* *statement* `{` *block*; one
    /// `;` may follow each of the first three parts.
    #[verifier::rlimit(100)]
    pub fn parse_for(&mut self) -> (result: Result<ASTNode, ParseError>)
        requires
            old(self).well_formed(),
        ensures
            final(self).well_formed(),
            agrees(result, final(self).remaining(), grammar::for_loop(old(self).remaining())),
        decreases old(self).remaining().len(), 3nat,
    {
        if !matches!(self.current_token, Token::For) {
            return Err(self.fail(ParseErrorKind::UnexpectedToken));
        }
        self.advance();
        proof {
            grammar::lemma_statement_consumes(self.remaining());
        }
        let init = match self.parse_statement() {
            Ok(node) => node,
            Err(error) => {
                return Err(error);
            },
        };
        proof {
            grammar::lemma_expression_consumes(self.remaining());
        }
        let condition = match self.parse_expression() {
            Ok(node) => node,
            Err(error) => {
                return Err(error);
            },
        };
        self.skip_semicolon();
        proof {
            grammar::lemma_statement_consumes(self.remaining());
        }
        let increment = match self.parse_statement() {
            Ok(node) => node,
            Err(error) => {
                return Err(error);
            },
        };
        if !matches!(self.current_token, Token::LBrace) {
            return Err(self.fail(ParseErrorKind::ExpectedLBraceAfterFor));
        }
        self.advance();
        match self.parse_block() {
            Ok(body) => Ok(
                ASTNode::For {
                    init: Box::new(init),
                    condition: Box::new(condition),
                    increment: Box::new(increment),
                    body: Box::new(body),
                },
            ),
            Err(error) => Err(error),
        }
    }

    /// Parses `while` *expression* `{` *block*.
    #[verifier::rlimit(50)]
    pub fn parse_while(&mut self) -> (result: Result<ASTNode, ParseError>)
        requires
            old(self).well_formed(),
        ensures
            final(self).well_formed(),
            agrees(result, final(self).remaining(), grammar::while_loop(old(self).remaining())),
        decreases old(self).remaining().len(), 3nat,
    {
        if !matches!(self.current_token, Token::While) {
            return Err(self.fail(ParseErrorKind::UnexpectedToken));
        }
        self.advance();
        proof {
            grammar::lemma_expression_consumes(self.remaining());
        }
        let condition = match self.parse_expression() {
            Ok(node) => node,
            Err(error) => {
                return Err(error);
            },
        };
        if !matches!(self.current_token, Token::LBrace) {
            return Err(self.fail(ParseErrorKind::ExpectedLBraceAfterWhile));
        }
        self.advance();
        match self.parse_block() {
            Ok(body) => Ok(ASTNode::While { condition: Box::new(condition), body: Box::new(body) }),
            Err(error) => Err(error),
        }
    }

    /// Parses one statement without the `;` that may follow it: the rule
    /// that the lookahead selects, an expression where it selects none.
    #[verifier::rlimit(100)]
    fn parse_bare_statement(&mut self) -> (result: Result<ASTNode, ParseError>)
        requires
            old(self).well_formed(),
        ensures
            final(self).well_formed(),
            agrees(
                result,
                final(self).remaining(),
                grammar::bare_statement(old(self).remaining()),
            ),
        decreases old(self).remaining().len(), 4nat,
    {
        match self.current_token {
            Token::Let => self.parse_let(),
            Token::Function => self.parse_function(),
            Token::Return => self.parse_return(),
            Token::If => self.parse_if(),
            Token::For => self.parse_for(),
            Token::While => self.parse_while(),
            _ => self.parse_expression(),
        }
    }

    /// Parses one statement, and the `;` that may follow it.
    pub fn parse_statement(&mut self) -> (result: Result<ASTNode, ParseError>)
        requires
            old(self).well_formed(),
        ensures
            final(self).well_formed(),
            agrees(result, final(self).remaining(), grammar::statement(old(self).remaining())),
        decreases old(self).remaining().len(), 5nat,
    {
        match self.parse_bare_statement() {
            Ok(node) => {
                self.skip_semicolon();
                Ok(node)
            },
            Err(error) => Err(error),
        }
    }

    /// Parses the statements of a block whose `{` has been passed, up to
    /// and including its `}`. The block becomes a `Program` node.
    #[verifier::rlimit(50)]
    pub fn parse_block(&mut self) -> (result: Result<ASTNode, ParseError>)
        requires
            old(self).well_formed(),
        ensures
            final(self).well_formed(),
            agrees(
                result,
                final(self).remaining(),
                grammar::block(old(self).remaining(), Seq::empty()),
            ),
        decreases old(self).remaining().len(), 6nat,
    {
        let mut nodes: Vec<ASTNode> = Vec::new();
        assert(trees(nodes@) =~= Seq::<Syntax>::empty());
        loop
            invariant
                self.well_formed(),
                self.remaining().len() <= old(self).remaining().len(),
                grammar::block(self.remaining(), trees(nodes@)) == grammar::block(
                    old(self).remaining(),
                    Seq::empty(),
                ),
            decreases self.remaining().len(),
        {
            if matches!(self.current_token, Token::RBrace) {
                self.advance();
                proof {
                    ASTNode::lemma_program(nodes);
                }
                return Ok(ASTNode::Program(nodes));
            }
            if matches!(self.current_token, Token::Eof) {
                return Err(self.fail(ParseErrorKind::ExpectedRBrace));
            }
            proof {
                grammar::lemma_statement_consumes(self.remaining());
            }
            let ghost before = trees(nodes@);
            match self.parse_statement() {
                Ok(node) => {
                    assert(trees(nodes@.push(node)) =~= before.push(node@));
                    nodes.push(node);
                },
                Err(error) => {
                    return Err(error);
                },
            }
        }
    }

    /// Parses a whole program: statements up to the end of the tokens.
    #[verifier::rlimit(50)]
    pub fn parse_program(&mut self) -> (result: Result<ASTNode, ParseError>)
        requires
            old(self).well_formed(),
        ensures
            final(self).well_formed(),
            agrees(result, final(self).remaining(), grammar::program(old(self).remaining())),
    {
        let mut nodes: Vec<ASTNode> = Vec::new();
        assert(trees(nodes@) =~= Seq::<Syntax>::empty());
        loop
            invariant
                self.well_formed(),
                grammar::statements(self.remaining(), trees(nodes@)) == grammar::program(
                    old(self).remaining(),
                ),
            decreases self.remaining().len(),
        {
            if matches!(self.current_token, Token::Eof) {
                proof {
                    ASTNode::lemma_program(nodes);
                }
                return Ok(ASTNode::Program(nodes));
            }
            proof {
                grammar::lemma_statement_consumes(self.remaining());
            }
            let ghost before = trees(nodes@);
            match self.parse_statement() {
                Ok(node) => {
                    assert(trees(nodes@.push(node)) =~= before.push(node@));
                    nodes.push(node);
                },
                Err(error) => {
                    return Err(error);
                },
            }
        }
    }
}

/// Parsing is deterministic: whatever the parser yields for the tokens of
/// one source text, it yields every time. Two results that both agree with
/// the grammar on that text are both trees with the same value and the same
/// tokens left, or both failures with the same value.
pub proof fn lemma_parsing_is_deterministic(
    source: Seq<char>,
    first: Result<ASTNode, ParseError>,
    first_left: Seq<Lexeme>,
    second: Result<ASTNode, ParseError>,
    second_left: Seq<Lexeme>,
)
    requires
        agrees(first, first_left, grammar::program(lexical::tokens_from(source, 0))),
        agrees(second, second_left, grammar::program(lexical::tokens_from(source, 0))),
    ensures
        first is Ok <==> second is Ok,
        first matches Ok(a) ==> second matches Ok(b) && a@ == b@ && first_left == second_left,
        first matches Err(e) ==> second matches Err(f) && e@ == f@,
{
}

} // verus!
