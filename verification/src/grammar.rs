//! The grammar, as pure functions on a token sequence.
//!
//! A position `i` in a token sequence names the parser's current token; the
//! token after it is the lookahead.  Past the end of the sequence every token
//! reads as the end-of-input token.  Each parse function says how many steps
//! the cursor moves and what the parse yields.

use vstd::prelude::*;
use crate::token::{TokenType, TokenView};
use crate::lexer::tok_at;
use crate::ast::{ExpressionView, IdentifierView, LetStatementView, ExpressionStatementView, StatementView};
use crate::diagnostic::{DiagnosticView, Expected};

verus! {

/// How tightly an operator binds.  Later variants bind tighter.
#[derive(Debug, PartialEq, Eq, Clone, Copy, Structural)]
pub enum Precedence {
    Lowest,
    Equals,
    Sum,
    Prefix,
}

impl Precedence {
    /// The binding strength as a number.
    pub open spec fn rank(self) -> nat {
        match self {
            Precedence::Lowest => 0,
            Precedence::Equals => 1,
            Precedence::Sum => 2,
            Precedence::Prefix => 3,
        }
    }

    /// The binding strength as a number.
    pub fn level(self) -> (level: u8)
        ensures
            level == self.rank(),
    {
        match self {
            Precedence::Lowest => 0,
            Precedence::Equals => 1,
            Precedence::Sum => 2,
            Precedence::Prefix => 3,
        }
    }
}

/// How an expression may start.
#[derive(Debug, PartialEq, Eq, Clone, Copy, Structural)]
pub enum PrefixRule {
    /// A name stands for itself.
    Identifier,
    /// A run of digits stands for itself.
    Integer,
    /// A unary operator, followed by its operand.
    Unary,
}

/// How a statement may start.
#[derive(Debug, PartialEq, Eq, Clone, Copy, Structural)]
pub enum StatementRule {
    /// A `let` binding.
    Let,
    /// An expression that stands as a statement.
    Expression,
}

/// The table of prefix rules: which token kinds can start an expression.
pub open spec fn prefix_rule(kind: TokenType) -> Option<PrefixRule> {
    match kind {
        TokenType::Ident => Some(PrefixRule::Identifier),
        TokenType::Int => Some(PrefixRule::Integer),
        TokenType::Plus => Some(PrefixRule::Unary),
        _ => None,
    }
}

/// The table of infix operators: the binding strength of a token kind
/// between two operands, `Lowest` for a kind that is no infix operator.
pub open spec fn infix_precedence(kind: TokenType) -> Precedence {
    match kind {
        TokenType::Equal => Precedence::Equals,
        TokenType::NotEq => Precedence::Equals,
        TokenType::Plus => Precedence::Sum,
        _ => Precedence::Lowest,
    }
}

/// The table of statement rules, by the kind of the first token.
pub open spec fn statement_rule(kind: TokenType) -> StatementRule {
    match kind {
        TokenType::Let => StatementRule::Let,
        _ => StatementRule::Expression,
    }
}

/// Looks `kind` up in the table of prefix rules.
pub fn lookup_prefix(kind: TokenType) -> (rule: Option<PrefixRule>)
    ensures
        rule == prefix_rule(kind),
{
    match kind {
        TokenType::Ident => Some(PrefixRule::Identifier),
        TokenType::Int => Some(PrefixRule::Integer),
        TokenType::Plus => Some(PrefixRule::Unary),
        _ => None,
    }
}

/// Looks `kind` up in the table of infix operators.
pub fn lookup_infix(kind: TokenType) -> (precedence: Precedence)
    ensures
        precedence == infix_precedence(kind),
{
    match kind {
        TokenType::Equal => Precedence::Equals,
        TokenType::NotEq => Precedence::Equals,
        TokenType::Plus => Precedence::Sum,
        _ => Precedence::Lowest,
    }
}

/// Looks `kind` up in the table of statement rules.
pub fn lookup_statement(kind: TokenType) -> (rule: StatementRule)
    ensures
        rule == statement_rule(kind),
{
    match kind {
        TokenType::Let => StatementRule::Let,
        _ => StatementRule::Expression,
    }
}

/// How many tokens of the sequence lie at or after position `i`.
pub open spec fn remaining(tokens: Seq<TokenView>, i: nat) -> nat {
    if i <= tokens.len() {
        (tokens.len() - i) as nat
    } else {
        0
    }
}

/// The result of parsing an expression: how far the cursor moved, and the
/// expression or the reason why there is none.
pub struct ExpressionParse {
    pub steps: nat,
    pub outcome: Result<ExpressionView, DiagnosticView>,
}

/// The result of parsing a statement: how far the cursor moved, and the
/// statement or the reason why there is none.
pub struct StatementParse {
    pub steps: nat,
    pub outcome: Result<StatementView, DiagnosticView>,
}

/// The result of parsing a program: how far the cursor moved, the
/// statements that parsed, and the reasons why the others did not.
pub struct ProgramParse {
    pub steps: nat,
    pub statements: Seq<StatementView>,
    pub diagnostics: Seq<DiagnosticView>,
}

/// The diagnostic for a token that cannot start an expression.
pub open spec fn no_expression(found: TokenView) -> DiagnosticView {
    DiagnosticView { expected: Expected::Expression, found }
}

/// The diagnostic for a token of another kind than `kind`.
pub open spec fn mismatch(kind: TokenType, found: TokenView) -> DiagnosticView {
    DiagnosticView { expected: Expected::Kind(kind), found }
}

/// The operand-first part of an expression at position `i`: a name, an
/// integer, or a unary operator with its operand.  On success the cursor
/// ends on the last token of that part.
pub open spec fn parse_prefix_at(tokens: Seq<TokenView>, i: nat) -> ExpressionParse
    decreases remaining(tokens, i), 0nat,
{
    let tok = tok_at(tokens, i);
    match prefix_rule(tok.typo) {
        None => ExpressionParse { steps: 0, outcome: Err(no_expression(tok)) },
        Some(PrefixRule::Identifier) => ExpressionParse {
            steps: 0,
            outcome: Ok(
                ExpressionView::IdentifierRef(IdentifierView { token: tok, value: tok.literal }),
            ),
        },
        Some(PrefixRule::Integer) => ExpressionParse {
            steps: 0,
            outcome: Ok(ExpressionView::IntegerLiteral { token: tok }),
        },
        Some(PrefixRule::Unary) => {
            let operand = parse_expression_at(tokens, i + 1, Precedence::Prefix);
            ExpressionParse {
                steps: 1 + operand.steps,
                outcome: match operand.outcome {
                    Ok(expression) => Ok(
                        ExpressionView::PrefixExpression {
                            operator: tok,
                            operand: Box::new(expression),
                        },
                    ),
                    Err(diagnostic) => Err(diagnostic),
                },
            }
        },
    }
}

/// Extends the expression `left`, whose last token is at position `i`, by
/// the infix operators that follow it and bind tighter than `min`.  An
/// operator's right operand takes the operators that bind tighter than the
/// operator itself, so operators of one strength group to the left.
pub open spec fn parse_infix_from(
    tokens: Seq<TokenView>,
    i: nat,
    left: ExpressionView,
    min: Precedence,
) -> ExpressionParse
    decreases remaining(tokens, i), 0nat,
{
    let operator = tok_at(tokens, i + 1);
    if infix_precedence(operator.typo).rank() > min.rank() {
        let right = parse_expression_at(tokens, i + 2, infix_precedence(operator.typo));
        match right.outcome {
            Err(diagnostic) => ExpressionParse { steps: 2 + right.steps, outcome: Err(diagnostic) },
            Ok(expression) => {
                let rest = parse_infix_from(
                    tokens,
                    i + 2 + right.steps,
                    ExpressionView::InfixExpression {
                        operator,
                        left: Box::new(left),
                        right: Box::new(expression),
                    },
                    min,
                );
                ExpressionParse { steps: 2 + right.steps + rest.steps, outcome: rest.outcome }
            },
        }
    } else {
        ExpressionParse { steps: 0, outcome: Ok(left) }
    }
}

/// The expression at position `i`, reading on while the operators bind
/// tighter than `min`.  On success the cursor ends on the last token of the
/// expression; on failure it stays on or before the token that was refused.
pub open spec fn parse_expression_at(
    tokens: Seq<TokenView>,
    i: nat,
    min: Precedence,
) -> ExpressionParse
    decreases remaining(tokens, i), 1nat,
{
    let prefix = parse_prefix_at(tokens, i);
    match prefix.outcome {
        Err(_) => prefix,
        Ok(left) => {
            let rest = parse_infix_from(tokens, i + prefix.steps, left, min);
            ExpressionParse { steps: prefix.steps + rest.steps, outcome: rest.outcome }
        },
    }
}

/// One step if the lookahead at position `i` is a semicolon, else none.
pub open spec fn terminator_steps(tokens: Seq<TokenView>, i: nat) -> nat {
    if tok_at(tokens, i + 1).typo == TokenType::SemiColon {
        1
    } else {
        0
    }
}

/// The `let` binding at position `i`: the current token, a name, `=`, an
/// expression and, if one follows, a semicolon.
pub open spec fn parse_let_statement_at(tokens: Seq<TokenView>, i: nat) -> StatementParse {
    let name = tok_at(tokens, i + 1);
    let assign = tok_at(tokens, i + 2);
    if name.typo != TokenType::Ident {
        StatementParse { steps: 0, outcome: Err(mismatch(TokenType::Ident, name)) }
    } else if assign.typo != TokenType::Assign {
        StatementParse { steps: 1, outcome: Err(mismatch(TokenType::Assign, assign)) }
    } else {
        let value = parse_expression_at(tokens, i + 3, Precedence::Lowest);
        match value.outcome {
            Err(diagnostic) => StatementParse { steps: 3 + value.steps, outcome: Err(diagnostic) },
            Ok(expression) => StatementParse {
                steps: 3 + value.steps + terminator_steps(tokens, i + 3 + value.steps),
                outcome: Ok(
                    StatementView::LetStatement(
                        LetStatementView {
                            token: tok_at(tokens, i),
                            name: Some(IdentifierView { token: name, value: name.literal }),
                            value: Some(expression),
                        },
                    ),
                ),
            },
        }
    }
}

/// The expression statement at position `i`: an expression and, if one
/// follows, a semicolon.
pub open spec fn parse_expression_statement_at(tokens: Seq<TokenView>, i: nat) -> StatementParse {
    let value = parse_expression_at(tokens, i, Precedence::Lowest);
    match value.outcome {
        Err(diagnostic) => StatementParse { steps: value.steps, outcome: Err(diagnostic) },
        Ok(expression) => StatementParse {
            steps: value.steps + terminator_steps(tokens, i + value.steps),
            outcome: Ok(
                StatementView::ExpressionStatement(
                    ExpressionStatementView { token: tok_at(tokens, i), expression },
                ),
            ),
        },
    }
}

/// The statement at position `i`, chosen by the kind of the current token.
pub open spec fn parse_statement_at(tokens: Seq<TokenView>, i: nat) -> StatementParse {
    match statement_rule(tok_at(tokens, i).typo) {
        StatementRule::Let => parse_let_statement_at(tokens, i),
        StatementRule::Expression => parse_expression_statement_at(tokens, i),
    }
}

/// Whether a token closes a statement that failed to parse.
pub open spec fn terminator(kind: TokenType) -> bool {
    kind == TokenType::SemiColon || kind == TokenType::EOF
}

/// The steps from position `i` to the next semicolon or end-of-input token.
pub open spec fn steps_to_terminator(tokens: Seq<TokenView>, i: nat) -> nat
    decreases remaining(tokens, i),
{
    if terminator(tok_at(tokens, i).typo) {
        0
    } else {
        1 + steps_to_terminator(tokens, i + 1)
    }
}

/// Where the next statement starts after the one at position `i`: one
/// step past its last token if it parses, and otherwise one step past the
/// semicolon or end-of-input token that follows where it failed.
pub open spec fn resume_position(tokens: Seq<TokenView>, i: nat) -> nat {
    let first = parse_statement_at(tokens, i);
    match first.outcome {
        Ok(_) => i + first.steps + 1,
        Err(_) => i + first.steps + steps_to_terminator(tokens, i + first.steps) + 1,
    }
}

/// The program at position `i`: statement after statement until the current
/// token is an end-of-input token.  A statement that parses is kept.  One
/// that does not leaves a diagnostic and is passed up to the semicolon that
/// closes it.
pub open spec fn parse_program_at(tokens: Seq<TokenView>, i: nat) -> ProgramParse
    decreases remaining(tokens, i),
{
    if tok_at(tokens, i).typo == TokenType::EOF {
        ProgramParse { steps: 0, statements: Seq::empty(), diagnostics: Seq::empty() }
    } else {
        let first = parse_statement_at(tokens, i);
        let next = resume_position(tokens, i);
        let rest = parse_program_at(tokens, next);
        ProgramParse {
            steps: (next - i + rest.steps) as nat,
            statements: successes(first.outcome) + rest.statements,
            diagnostics: failures(first.outcome) + rest.diagnostics,
        }
    }
}

/// The value that a parse adds: one if it succeeded, none if it did not.
pub open spec fn successes<T>(outcome: Result<T, DiagnosticView>) -> Seq<T> {
    match outcome {
        Ok(value) => seq![value],
        Err(_) => Seq::empty(),
    }
}

/// The diagnostic that a parse adds: one if it failed, none if it did not.
pub open spec fn failures<T>(outcome: Result<T, DiagnosticView>) -> Seq<DiagnosticView> {
    match outcome {
        Ok(_) => Seq::empty(),
        Err(diagnostic) => seq![diagnostic],
    }
}

} // verus!
