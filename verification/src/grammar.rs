//! The grammar of the language, as mathematics.
//!
//! A token sequence is a `Seq<Lexeme>`; past its end there is only `Eof`.
//! Each rule is a function from the tokens that are left to the tree it
//! builds and the tokens it leaves, or to the failure that ends the parse.
//! The parser in [`crate::parser`] is proved against these definitions.
//!
//! ```text
//! Program    := Statement* Eof
//! Statement  := (Let | Function | Return | If | For | While | Expression) ';'?
//! Let        := 'let' Identifier '=' Expression
//! Function   := 'function' Identifier '(' ParamList? ')' '{' Block
//! ParamList  := Identifier (',' Identifier)*
//! Return     := 'return' Expression
//! If         := 'if' Expression '{' Block ('else' '{' Block)?
//! For        := 'for' Statement Expression ';'? Statement '{' Block
//! While      := 'while' Expression '{' Block
//! Block      := Statement* '}'
//! Expression := Operand (Operator Operand)*
//! Operand    := Identifier | IntLiteral | 'true' | 'false' | '(' Expression ')'
//! ```
//!
//! One `;` may follow a statement, and the condition in the head of a `for`;
//! it belongs to what it follows and leaves no trace in the tree. The
//! operators are `=` (weakest), `+` and `-`, `*` and `/` (strongest); all of
//! them group to the left.

use vstd::prelude::*;
use crate::lexical::Lexeme;

verus! {

/// The value of a syntax tree: the tree's shape, with names as sequences of
/// characters.
pub enum Syntax {
    Program(Seq<Syntax>),
    Function { name: Seq<char>, params: Seq<Seq<char>>, body: Box<Syntax> },
    Let { name: Seq<char>, value: Box<Syntax> },
    Return(Box<Syntax>),
    If { condition: Box<Syntax>, then_branch: Box<Syntax>, else_branch: Option<Box<Syntax>> },
    For { init: Box<Syntax>, condition: Box<Syntax>, increment: Box<Syntax>, body: Box<Syntax> },
    While { condition: Box<Syntax>, body: Box<Syntax> },
    BinaryOp { op: Lexeme, left: Box<Syntax>, right: Box<Syntax> },
    Identifier(Seq<char>),
    IntLiteral(i32),
    BoolLiteral(bool),
}

/// What the parser expected where it gave up.
#[derive(Clone, Copy, Debug, PartialEq, Eq)]
pub enum ParseErrorKind {
    /// The scanner had reported an error in place of a token.
    LexicalError,
    /// No name followed `let`.
    ExpectedIdentifierAfterLet,
    /// No `=` followed the name in a `let`.
    ExpectedEqualsAfterLet,
    /// No name followed `function`.
    ExpectedIdentifierAfterFunction,
    /// No `(` followed the name of a function.
    ExpectedLParenAfterFunctionName,
    /// A parameter list held something other than a name where a name was
    /// due.
    ExpectedIdentifierInParameters,
    /// A parameter was followed by neither `,` nor `)`.
    ExpectedRParenAfterParameters,
    /// No `{` followed the parameters of a function.
    ExpectedLBraceAfterParameters,
    /// No `{` followed the condition of an `if`.
    ExpectedLBraceAfterIf,
    /// No `{` followed `else`.
    ExpectedLBraceAfterElse,
    /// No `{` followed the head of a `for`.
    ExpectedLBraceAfterFor,
    /// No `{` followed the condition of a `while`.
    ExpectedLBraceAfterWhile,
    /// The tokens ended inside a block.
    ExpectedRBrace,
    /// No `)` followed an expression in parentheses.
    ExpectedRParenAfterExpression,
    /// A token that starts neither an operand nor the rule asked for.
    UnexpectedToken,
}

impl ParseErrorKind {
    /// The message that describes this kind of failure.
    pub open spec fn text(self) -> Seq<char> {
        match self {
            ParseErrorKind::LexicalError => "Lexical error"@,
            ParseErrorKind::ExpectedIdentifierAfterLet => "Expected identifier after let"@,
            ParseErrorKind::ExpectedEqualsAfterLet => "Expected '=' after let declaration"@,
            ParseErrorKind::ExpectedIdentifierAfterFunction => "Expected identifier after function"@,
            ParseErrorKind::ExpectedLParenAfterFunctionName => "Expected '(' after function name"@,
            ParseErrorKind::ExpectedIdentifierInParameters => "Expected identifier in function parameters"@,
            ParseErrorKind::ExpectedRParenAfterParameters => "Expected ',' or ')' after function parameter"@,
            ParseErrorKind::ExpectedLBraceAfterParameters => "Expected '{' after function parameters"@,
            ParseErrorKind::ExpectedLBraceAfterIf => "Expected '{' after if condition"@,
            ParseErrorKind::ExpectedLBraceAfterElse => "Expected '{' after else"@,
            ParseErrorKind::ExpectedLBraceAfterFor => "Expected '{' after for loop"@,
            ParseErrorKind::ExpectedLBraceAfterWhile => "Expected '{' after while condition"@,
            ParseErrorKind::ExpectedRBrace => "Expected '}' at end of block"@,
            ParseErrorKind::ExpectedRParenAfterExpression => "Expected ')' after expression"@,
            ParseErrorKind::UnexpectedToken => "Unexpected token"@,
        }
    }

    /// Renders the message that describes this kind of failure.
    pub fn message(&self) -> (message: String)
        ensures
            message@ == self.text(),
    {
        match self {
            ParseErrorKind::LexicalError => "Lexical error".to_owned(),
            ParseErrorKind::ExpectedIdentifierAfterLet => "Expected identifier after let".to_owned(),
            ParseErrorKind::ExpectedEqualsAfterLet => "Expected '=' after let declaration".to_owned(),
            ParseErrorKind::ExpectedIdentifierAfterFunction => {
                "Expected identifier after function".to_owned()
            },
            ParseErrorKind::ExpectedLParenAfterFunctionName => {
                "Expected '(' after function name".to_owned()
            },
            ParseErrorKind::ExpectedIdentifierInParameters => {
                "Expected identifier in function parameters".to_owned()
            },
            ParseErrorKind::ExpectedRParenAfterParameters => {
                "Expected ',' or ')' after function parameter".to_owned()
            },
            ParseErrorKind::ExpectedLBraceAfterParameters => {
                "Expected '{' after function parameters".to_owned()
            },
            ParseErrorKind::ExpectedLBraceAfterIf => "Expected '{' after if condition".to_owned(),
            ParseErrorKind::ExpectedLBraceAfterElse => "Expected '{' after else".to_owned(),
            ParseErrorKind::ExpectedLBraceAfterFor => "Expected '{' after for loop".to_owned(),
            ParseErrorKind::ExpectedLBraceAfterWhile => {
                "Expected '{' after while condition".to_owned()
            },
            ParseErrorKind::ExpectedRBrace => "Expected '}' at end of block".to_owned(),
            ParseErrorKind::ExpectedRParenAfterExpression => {
                "Expected ')' after expression".to_owned()
            },
            ParseErrorKind::UnexpectedToken => "Unexpected token".to_owned(),
        }
    }
}

/// The value of a parse failure: what was expected, and the token that was
/// found instead.
pub struct Failure {
    pub kind: ParseErrorKind,
    pub token: Lexeme,
}

/// What a rule yields: a tree and the tokens left behind it, or a failure.
pub type Outcome = Result<(Syntax, Seq<Lexeme>), Failure>;

/// The next token; past the end of the sequence it is `Eof`.
pub open spec fn first(ts: Seq<Lexeme>) -> Lexeme {
    if ts.len() > 0 {
        ts[0]
    } else {
        Lexeme::Eof
    }
}

/// The tokens behind the next one.
pub open spec fn rest(ts: Seq<Lexeme>) -> Seq<Lexeme> {
    if ts.len() > 0 {
        ts.skip(1)
    } else {
        ts
    }
}

/// The failure for finding `token` where `kind` says what was due. An error
/// token is reported as a lexical error, whatever was due.
pub open spec fn unexpected(kind: ParseErrorKind, token: Lexeme) -> Failure {
    if token is Error {
        Failure { kind: ParseErrorKind::LexicalError, token }
    } else {
        Failure { kind, token }
    }
}

/// The failure that an outcome carries. Every rule that yields a tree
/// leaves fewer tokens than it was given (see [`lemma_statement_consumes`]
/// and the lemmas beside it), so the first case never decides a parse; it
/// is there for the definitions below to be well-founded.
pub open spec fn failure_of(outcome: Outcome) -> Failure {
    match outcome {
        Ok((_, left)) => unexpected(ParseErrorKind::UnexpectedToken, first(left)),
        Err(failure) => failure,
    }
}

/// Whether `token` is a binary operator.
pub open spec fn is_binary_operator(token: Lexeme) -> bool {
    token is Plus || token is Minus || token is Star || token is Slash || token is Equals
}

/// How strongly an operator binds; 0 for a token that is none.
pub open spec fn precedence_of(token: Lexeme) -> nat {
    match token {
        Lexeme::Equals => 1,
        Lexeme::Plus | Lexeme::Minus => 2,
        Lexeme::Star | Lexeme::Slash => 3,
        _ => 0,
    }
}

/// `ts` without the `;` that it may start with.
pub open spec fn past_semicolon(ts: Seq<Lexeme>) -> Seq<Lexeme> {
    if first(ts) is Semicolon {
        rest(ts)
    } else {
        ts
    }
}

/// A list of parameters and the tokens left behind it, or a failure.
pub type Parameters = Result<(Seq<Seq<char>>, Seq<Lexeme>), Failure>;

/// `ParamList ')'`, for a list that is not empty: names separated by commas,
/// up to and including the closing parenthesis. `names` holds the names that
/// came before `ts`.
pub open spec fn more_parameters(ts: Seq<Lexeme>, names: Seq<Seq<char>>) -> Parameters
    decreases ts.len(),
{
    match first(ts) {
        Lexeme::Identifier(name) => {
            let after = rest(ts);
            if first(after) is Comma {
                more_parameters(rest(after), names.push(name))
            } else if first(after) is RParen {
                Ok((names.push(name), rest(after)))
            } else {
                Err(unexpected(ParseErrorKind::ExpectedRParenAfterParameters, first(after)))
            }
        },
        token => Err(unexpected(ParseErrorKind::ExpectedIdentifierInParameters, token)),
    }
}

/// `ParamList? ')'`: the parameters of a function, behind the opening
/// parenthesis.
pub open spec fn parameters(ts: Seq<Lexeme>) -> Parameters {
    if first(ts) is RParen {
        Ok((Seq::empty(), rest(ts)))
    } else {
        more_parameters(ts, Seq::empty())
    }
}

/// `Operand`: a name, a literal, or an expression in parentheses.
pub open spec fn primary(ts: Seq<Lexeme>) -> Outcome
    decreases ts.len(), 0nat,
{
    match first(ts) {
        Lexeme::Identifier(name) => Ok((Syntax::Identifier(name), rest(ts))),
        Lexeme::IntLiteral(value) => Ok((Syntax::IntLiteral(value), rest(ts))),
        Lexeme::True => Ok((Syntax::BoolLiteral(true), rest(ts))),
        Lexeme::False => Ok((Syntax::BoolLiteral(false), rest(ts))),
        Lexeme::LParen => match expression(rest(ts)) {
            Ok((inner, after)) => if first(after) is RParen {
                Ok((inner, rest(after)))
            } else {
                Err(unexpected(ParseErrorKind::ExpectedRParenAfterExpression, first(after)))
            },
            Err(failure) => Err(failure),
        },
        token => Err(unexpected(ParseErrorKind::UnexpectedToken, token)),
    }
}

/// The operators and operands that follow the operand `left`, as far as the
/// operators bind at least as strongly as `min`.
///
/// Each such operator takes as its right operand everything that binds more
/// strongly than itself, and the tree so far as its left operand: operators
/// of one strength group to the left.
pub open spec fn climb(left: Syntax, ts: Seq<Lexeme>, min: nat) -> Outcome
    decreases ts.len(), 0nat,
{
    let op = first(ts);
    if is_binary_operator(op) && precedence_of(op) >= min {
        match precedence(rest(ts), precedence_of(op) + 1) {
            Ok((right, after)) if after.len() < ts.len() => climb(
                Syntax::BinaryOp { op, left: Box::new(left), right: Box::new(right) },
                after,
                min,
            ),
            other => Err(failure_of(other)),
        }
    } else {
        Ok((left, ts))
    }
}

/// An operand, followed by the operators that bind at least as strongly as
/// `min` and their operands.
pub open spec fn precedence(ts: Seq<Lexeme>, min: nat) -> Outcome
    decreases ts.len(), 1nat,
{
    match primary(ts) {
        Ok((left, after)) if after.len() < ts.len() => climb(left, after, min),
        other => Err(failure_of(other)),
    }
}

/// `Expression`.
pub open spec fn expression(ts: Seq<Lexeme>) -> Outcome
    decreases ts.len(), 2nat,
{
    precedence(ts, 0)
}

/// `Let`.
pub open spec fn let_binding(ts: Seq<Lexeme>) -> Outcome
    decreases ts.len(), 3nat,
{
    if !(first(ts) is Let) {
        Err(unexpected(ParseErrorKind::UnexpectedToken, first(ts)))
    } else {
        let after_let = rest(ts);
        match first(after_let) {
            Lexeme::Identifier(name) => {
                let after_name = rest(after_let);
                if first(after_name) is Equals {
                    match expression(rest(after_name)) {
                        Ok((value, after)) => Ok(
                            (Syntax::Let { name, value: Box::new(value) }, after),
                        ),
                        Err(failure) => Err(failure),
                    }
                } else {
                    Err(unexpected(ParseErrorKind::ExpectedEqualsAfterLet, first(after_name)))
                }
            },
            token => Err(unexpected(ParseErrorKind::ExpectedIdentifierAfterLet, token)),
        }
    }
}

/// `Return`.
pub open spec fn return_statement(ts: Seq<Lexeme>) -> Outcome
    decreases ts.len(), 3nat,
{
    if !(first(ts) is Return) {
        Err(unexpected(ParseErrorKind::UnexpectedToken, first(ts)))
    } else {
        match expression(rest(ts)) {
            Ok((value, after)) => Ok((Syntax::Return(Box::new(value)), after)),
            Err(failure) => Err(failure),
        }
    }
}

/// `Function`.
pub open spec fn function(ts: Seq<Lexeme>) -> Outcome
    decreases ts.len(), 3nat,
{
    if !(first(ts) is Function) {
        Err(unexpected(ParseErrorKind::UnexpectedToken, first(ts)))
    } else {
        let after_keyword = rest(ts);
        match first(after_keyword) {
            Lexeme::Identifier(name) => {
                let after_name = rest(after_keyword);
                if first(after_name) is LParen {
                    match parameters(rest(after_name)) {
                        Ok((params, after)) if after.len() < ts.len() => {
                            if first(after) is LBrace {
                                match block(rest(after), Seq::empty()) {
                                    Ok((body, after_body)) => Ok(
                                        (
                                            Syntax::Function { name, params, body: Box::new(body) },
                                            after_body,
                                        ),
                                    ),
                                    Err(failure) => Err(failure),
                                }
                            } else {
                                Err(
                                    unexpected(
                                        ParseErrorKind::ExpectedLBraceAfterParameters,
                                        first(after),
                                    ),
                                )
                            }
                        },
                        Ok((_, after)) => Err(
                            unexpected(ParseErrorKind::UnexpectedToken, first(after)),
                        ),
                        Err(failure) => Err(failure),
                    }
                } else {
                    Err(
                        unexpected(
                            ParseErrorKind::ExpectedLParenAfterFunctionName,
                            first(after_name),
                        ),
                    )
                }
            },
            token => Err(unexpected(ParseErrorKind::ExpectedIdentifierAfterFunction, token)),
        }
    }
}

/// `If`.
pub open spec fn if_statement(ts: Seq<Lexeme>) -> Outcome
    decreases ts.len(), 3nat,
{
    if !(first(ts) is If) {
        Err(unexpected(ParseErrorKind::UnexpectedToken, first(ts)))
    } else {
        match expression(rest(ts)) {
            Ok((condition, after)) if after.len() < ts.len() => {
                if first(after) is LBrace {
                    match block(rest(after), Seq::empty()) {
                        Ok((then_branch, after_then)) if after_then.len() < ts.len() => {
                            if !(first(after_then) is Else) {
                                Ok(
                                    (
                                        Syntax::If {
                                            condition: Box::new(condition),
                                            then_branch: Box::new(then_branch),
                                            else_branch: None,
                                        },
                                        after_then,
                                    ),
                                )
                            } else if first(rest(after_then)) is LBrace {
                                match block(rest(rest(after_then)), Seq::empty()) {
                                    Ok((else_branch, after_else)) => Ok(
                                        (
                                            Syntax::If {
                                                condition: Box::new(condition),
                                                then_branch: Box::new(then_branch),
                                                else_branch: Some(Box::new(else_branch)),
                                            },
                                            after_else,
                                        ),
                                    ),
                                    Err(failure) => Err(failure),
                                }
                            } else {
                                Err(
                                    unexpected(
                                        ParseErrorKind::ExpectedLBraceAfterElse,
                                        first(rest(after_then)),
                                    ),
                                )
                            }
                        },
                        other => Err(failure_of(other)),
                    }
                } else {
                    Err(unexpected(ParseErrorKind::ExpectedLBraceAfterIf, first(after)))
                }
            },
            other => Err(failure_of(other)),
        }
    }
}

/// `For`.
pub open spec fn for_loop(ts: Seq<Lexeme>) -> Outcome
    decreases ts.len(), 3nat,
{
    if !(first(ts) is For) {
        Err(unexpected(ParseErrorKind::UnexpectedToken, first(ts)))
    } else {
        match statement(rest(ts)) {
            Ok((init, after_init)) if after_init.len() < ts.len() => {
                match expression(after_init) {
                    Ok((condition, after_condition)) if after_condition.len() < ts.len() => {
                        match statement(past_semicolon(after_condition)) {
                            Ok((increment, after)) if after.len() < ts.len() => {
                                if first(after) is LBrace {
                                    match block(rest(after), Seq::empty()) {
                                        Ok((body, after_body)) => Ok(
                                            (
                                                Syntax::For {
                                                    init: Box::new(init),
                                                    condition: Box::new(condition),
                                                    increment: Box::new(increment),
                                                    body: Box::new(body),
                                                },
                                                after_body,
                                            ),
                                        ),
                                        Err(failure) => Err(failure),
                                    }
                                } else {
                                    Err(
                                        unexpected(
                                            ParseErrorKind::ExpectedLBraceAfterFor,
                                            first(after),
                                        ),
                                    )
                                }
                            },
                            other => Err(failure_of(other)),
                        }
                    },
                    other => Err(failure_of(other)),
                }
            },
            other => Err(failure_of(other)),
        }
    }
}

/// `While`.
pub open spec fn while_loop(ts: Seq<Lexeme>) -> Outcome
    decreases ts.len(), 3nat,
{
    if !(first(ts) is While) {
        Err(unexpected(ParseErrorKind::UnexpectedToken, first(ts)))
    } else {
        match expression(rest(ts)) {
            Ok((condition, after)) if after.len() < ts.len() => {
                if first(after) is LBrace {
                    match block(rest(after), Seq::empty()) {
                        Ok((body, after_body)) => Ok(
                            (
                                Syntax::While {
                                    condition: Box::new(condition),
                                    body: Box::new(body),
                                },
                                after_body,
                            ),
                        ),
                        Err(failure) => Err(failure),
                    }
                } else {
                    Err(unexpected(ParseErrorKind::ExpectedLBraceAfterWhile, first(after)))
                }
            },
            other => Err(failure_of(other)),
        }
    }
}

/// A statement without the `;` that may follow it: the rule that the first
/// token selects, an expression where it selects none.
pub open spec fn bare_statement(ts: Seq<Lexeme>) -> Outcome
    decreases ts.len(), 4nat,
{
    match first(ts) {
        Lexeme::Let => let_binding(ts),
        Lexeme::Function => function(ts),
        Lexeme::Return => return_statement(ts),
        Lexeme::If => if_statement(ts),
        Lexeme::For => for_loop(ts),
        Lexeme::While => while_loop(ts),
        _ => expression(ts),
    }
}

/// `Statement`: a bare statement, and the `;` that may follow it.
pub open spec fn statement(ts: Seq<Lexeme>) -> Outcome
    decreases ts.len(), 5nat,
{
    match bare_statement(ts) {
        Ok((node, after)) => Ok((node, past_semicolon(after))),
        Err(failure) => Err(failure),
    }
}

/// `Block`: the statements of a block whose `{` has been passed, up to and
/// including its `}`. `nodes` holds the statements that came before `ts`.
/// The tree of a block is a `Program` node.
pub open spec fn block(ts: Seq<Lexeme>, nodes: Seq<Syntax>) -> Outcome
    decreases ts.len(), 6nat,
{
    if first(ts) is RBrace {
        Ok((Syntax::Program(nodes), rest(ts)))
    } else if first(ts) is Eof {
        Err(unexpected(ParseErrorKind::ExpectedRBrace, first(ts)))
    } else {
        match statement(ts) {
            Ok((node, after)) if after.len() < ts.len() => block(after, nodes.push(node)),
            other => Err(failure_of(other)),
        }
    }
}

/// `Statement* Eof`: the statements up to the end of the tokens. `nodes`
/// holds the statements that came before `ts`.
pub open spec fn statements(ts: Seq<Lexeme>, nodes: Seq<Syntax>) -> Outcome
    decreases ts.len(), 6nat,
{
    if first(ts) is Eof {
        Ok((Syntax::Program(nodes), ts))
    } else {
        match statement(ts) {
            Ok((node, after)) if after.len() < ts.len() => statements(after, nodes.push(node)),
            other => Err(failure_of(other)),
        }
    }
}

/// `Program`.
pub open spec fn program(ts: Seq<Lexeme>) -> Outcome {
    statements(ts, Seq::empty())
}

/// Whether `outcome`, if it is a tree, leaves fewer tokens than `ts` has.
pub open spec fn consumes(outcome: Outcome, ts: Seq<Lexeme>) -> bool {
    outcome matches Ok((_, after)) ==> after.len() < ts.len()
}

/// Whether `outcome`, if it is a tree, leaves no more tokens than `ts` has.
pub open spec fn keeps_within(outcome: Outcome, ts: Seq<Lexeme>) -> bool {
    outcome matches Ok((_, after)) ==> after.len() <= ts.len()
}

/// A parameter list that is read leaves fewer tokens than it was given.
pub proof fn lemma_more_parameters_consume(ts: Seq<Lexeme>, names: Seq<Seq<char>>)
    ensures
        more_parameters(ts, names) matches Ok((_, after)) ==> after.len() < ts.len(),
    decreases ts.len(),
{
    if first(ts) is Identifier && first(rest(ts)) is Comma {
        lemma_more_parameters_consume(rest(rest(ts)), names.push(first(ts)->Identifier_0));
    }
}

/// The parameters of a function, with the closing parenthesis, are at least
/// one token.
pub proof fn lemma_parameters_consume(ts: Seq<Lexeme>)
    ensures
        parameters(ts) matches Ok((_, after)) ==> after.len() < ts.len(),
{
    lemma_more_parameters_consume(ts, Seq::empty());
}

pub proof fn lemma_primary_consumes(ts: Seq<Lexeme>)
    ensures
        consumes(primary(ts), ts),
    decreases ts.len(), 0nat,
{
    if first(ts) is LParen {
        lemma_expression_consumes(rest(ts));
    }
}

pub proof fn lemma_climb_keeps_within(left: Syntax, ts: Seq<Lexeme>, min: nat)
    ensures
        keeps_within(climb(left, ts, min), ts),
    decreases ts.len(), 0nat,
{
    let op = first(ts);
    if is_binary_operator(op) && precedence_of(op) >= min {
        match precedence(rest(ts), precedence_of(op) + 1) {
            Ok((right, after)) => {
                if after.len() < ts.len() {
                    lemma_climb_keeps_within(
                        Syntax::BinaryOp { op, left: Box::new(left), right: Box::new(right) },
                        after,
                        min,
                    );
                }
            },
            Err(_) => {},
        }
    }
}

pub proof fn lemma_precedence_consumes(ts: Seq<Lexeme>, min: nat)
    ensures
        consumes(precedence(ts, min), ts),
    decreases ts.len(), 1nat,
{
    lemma_primary_consumes(ts);
    match primary(ts) {
        Ok((left, after)) => {
            lemma_climb_keeps_within(left, after, min);
        },
        Err(_) => {},
    }
}

pub proof fn lemma_expression_consumes(ts: Seq<Lexeme>)
    ensures
        consumes(expression(ts), ts),
    decreases ts.len(), 2nat,
{
    lemma_precedence_consumes(ts, 0);
}

pub proof fn lemma_let_consumes(ts: Seq<Lexeme>)
    ensures
        consumes(let_binding(ts), ts),
    decreases ts.len(), 3nat,
{
    if first(ts) is Let && first(rest(ts)) is Identifier && first(rest(rest(ts))) is Equals {
        lemma_expression_consumes(rest(rest(rest(ts))));
    }
}

pub proof fn lemma_return_consumes(ts: Seq<Lexeme>)
    ensures
        consumes(return_statement(ts), ts),
    decreases ts.len(), 3nat,
{
    if first(ts) is Return {
        lemma_expression_consumes(rest(ts));
    }
}

pub proof fn lemma_function_consumes(ts: Seq<Lexeme>)
    ensures
        consumes(function(ts), ts),
    decreases ts.len(), 3nat,
{
    if first(ts) is Function && first(rest(ts)) is Identifier && first(rest(rest(ts))) is LParen {
        match parameters(rest(rest(rest(ts)))) {
            Ok((_, after)) => {
                if after.len() < ts.len() && first(after) is LBrace {
                    lemma_block_consumes(rest(after), Seq::empty());
                }
            },
            Err(_) => {},
        }
    }
}

pub proof fn lemma_if_consumes(ts: Seq<Lexeme>)
    ensures
        consumes(if_statement(ts), ts),
    decreases ts.len(), 3nat,
{
    if first(ts) is If {
        match expression(rest(ts)) {
            Ok((_, after)) => {
                if after.len() < ts.len() && first(after) is LBrace {
                    match block(rest(after), Seq::empty()) {
                        Ok((_, after_then)) => {
                            if after_then.len() < ts.len() && first(after_then) is Else && first(
                                rest(after_then),
                            ) is LBrace {
                                lemma_block_consumes(rest(rest(after_then)), Seq::empty());
                            }
                        },
                        Err(_) => {},
                    }
                }
            },
            Err(_) => {},
        }
    }
}

pub proof fn lemma_for_consumes(ts: Seq<Lexeme>)
    ensures
        consumes(for_loop(ts), ts),
    decreases ts.len(), 3nat,
{
    if first(ts) is For {
        match statement(rest(ts)) {
            Ok((_, after_init)) => {
                if after_init.len() < ts.len() {
                    match expression(after_init) {
                        Ok((_, after_condition)) => {
                            if after_condition.len() < ts.len() {
                                match statement(past_semicolon(after_condition)) {
                                    Ok((_, after)) => {
                                        if after.len() < ts.len() && first(after) is LBrace {
                                            lemma_block_consumes(rest(after), Seq::empty());
                                        }
                                    },
                                    Err(_) => {},
                                }
                            }
                        },
                        Err(_) => {},
                    }
                }
            },
            Err(_) => {},
        }
    }
}

pub proof fn lemma_while_consumes(ts: Seq<Lexeme>)
    ensures
        consumes(while_loop(ts), ts),
    decreases ts.len(), 3nat,
{
    if first(ts) is While {
        match expression(rest(ts)) {
            Ok((_, after)) => {
                if after.len() < ts.len() && first(after) is LBrace {
                    lemma_block_consumes(rest(after), Seq::empty());
                }
            },
            Err(_) => {},
        }
    }
}

pub proof fn lemma_statement_consumes(ts: Seq<Lexeme>)
    ensures
        consumes(bare_statement(ts), ts),
        consumes(statement(ts), ts),
    decreases ts.len(), 4nat,
{
    match first(ts) {
        Lexeme::Let => lemma_let_consumes(ts),
        Lexeme::Function => lemma_function_consumes(ts),
        Lexeme::Return => lemma_return_consumes(ts),
        Lexeme::If => lemma_if_consumes(ts),
        Lexeme::For => lemma_for_consumes(ts),
        Lexeme::While => lemma_while_consumes(ts),
        _ => lemma_expression_consumes(ts),
    }
}

pub proof fn lemma_block_consumes(ts: Seq<Lexeme>, nodes: Seq<Syntax>)
    ensures
        consumes(block(ts, nodes), ts),
    decreases ts.len(), 6nat,
{
    if !(first(ts) is RBrace) && !(first(ts) is Eof) {
        match statement(ts) {
            Ok((node, after)) => {
                if after.len() < ts.len() {
                    lemma_block_consumes(after, nodes.push(node));
                }
            },
            Err(_) => {},
        }
    }
}

} // verus!
