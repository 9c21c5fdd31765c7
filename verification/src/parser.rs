//! The parser: recursive descent over a two-token window, with
//! precedence climbing for expressions.
//!
//! The parser pulls tokens from a lexer one at a time.  Its contracts speak
//! of the whole token stream of the text and of how far the parser has come
//! in it, and say that each parse function does what the grammar defines at
//! that position.

use vstd::prelude::*;
use crate::token::{Token, TokenType, TokenView};
use crate::lexer::{
    Lexer,
    tok_at,
    token_stream,
    lemma_stream_head,
    lemma_stream_tail,
};
use crate::ast::{Expression, Identifier, LetStatement, ExpressionStatement, Statement, Program};
use crate::diagnostic::{Diagnostic, DiagnosticView, Expected, diagnostic_views};
use crate::laws::{complete, lemma_parsed_text_is_complete};
use crate::grammar::{
    Precedence,
    PrefixRule,
    StatementRule,
    lookup_prefix,
    lookup_infix,
    lookup_statement,
    remaining,
    parse_prefix_at,
    parse_infix_from,
    parse_expression_at,
    parse_let_statement_at,
    parse_expression_statement_at,
    parse_statement_at,
    steps_to_terminator,
    parse_program_at,
    failures,
    ProgramParse,
    mismatch,
    no_expression,
};

verus! {

/// A parser over one lexer.  `current_token` is the token under the cursor
/// and `peek_token` the one after it.
pub struct Parser {
    pub lexer: Lexer,
    pub current_token: Token,
    pub peek_token: Token,
    /// The failures recorded so far, in the order in which they occurred.
    pub diagnostics: Vec<Diagnostic>,
    /// The token stream of the text, from where the lexer stood when the
    /// parser was made.
    pub tokens: Ghost<Seq<TokenView>>,
    /// How many tokens of the stream lie before the current token.
    pub consumed: Ghost<nat>,
}

impl Parser {
    /// The token stream that the parser reads.
    pub open spec fn stream(&self) -> Seq<TokenView> {
        self.tokens@
    }

    /// The position of the current token in the stream.
    pub open spec fn position(&self) -> nat {
        self.consumed@
    }

    /// The values of the diagnostics recorded so far.
    pub open spec fn reports(&self) -> Seq<DiagnosticView> {
        diagnostic_views(self.diagnostics@)
    }

    /// The parser's invariant: the window holds the tokens at the cursor
    /// and after it, and the lexer will produce the rest of the stream.
    pub open spec fn wf(&self) -> bool {
        &&& self.lexer.wf()
        &&& self.current_token@ == tok_at(self.stream(), self.position())
        &&& self.peek_token@ == tok_at(self.stream(), self.position() + 1)
        &&& forall|k: nat| #[trigger]
            tok_at(token_stream(self.lexer.source(), self.lexer.cursor()), k) == tok_at(
                self.stream(),
                self.position() + 2 + k,
            )
    }

    /// Whether the parser has moved `steps` tokens on from where `before`
    /// stood in the same stream.
    pub open spec fn advanced(&self, before: &Parser, steps: nat) -> bool {
        &&& self.wf()
        &&& self.stream() == before.stream()
        &&& self.position() == before.position() + steps
    }

    /// A parser at the start of the tokens that `l` has yet to produce.
    pub fn new(l: Lexer) -> (p: Self)
        requires
            l.wf(),
        ensures
            p.wf(),
            p.stream() == token_stream(l.source(), l.cursor()),
            p.position() == 0,
            p.reports() == Seq::<DiagnosticView>::empty(),
    {
        let mut lexer = l;
        let ghost source = l.source();
        let ghost start = l.cursor();
        let current_token = lexer.next_token();
        let ghost second = lexer.cursor();
        let peek_token = lexer.next_token();
        let p = Parser {
            lexer,
            current_token,
            peek_token,
            diagnostics: Vec::new(),
            tokens: Ghost(token_stream(source, start)),
            consumed: Ghost(0),
        };
        proof {
            lemma_stream_head(source, start);
            lemma_stream_head(source, second);
            lemma_stream_tail(source, start, 0);
            assert forall|k: nat| #[trigger]
                tok_at(token_stream(p.lexer.source(), p.lexer.cursor()), k) == tok_at(
                    p.stream(),
                    p.position() + 2 + k,
                ) by {
                lemma_stream_tail(source, second, k);
                lemma_stream_tail(source, start, k + 1);
            }
            assert(p.reports() =~= Seq::<DiagnosticView>::empty());
        }
        p
    }

    /// Moves the window one token on: the lookahead becomes the current
    /// token and the lexer provides the new lookahead.
    pub fn next_token(&mut self)
        requires
            old(self).wf(),
        ensures
            final(self).advanced(old(self), 1),
            final(self).diagnostics == old(self).diagnostics,
    {
        let ghost source = self.lexer.source();
        let ghost cursor = self.lexer.cursor();
        self.current_token = self.peek_token.clone();
        self.peek_token = self.lexer.next_token();
        self.consumed = Ghost((self.consumed@ + 1) as nat);
        proof {
            lemma_stream_head(source, cursor);
            assert(tok_at(token_stream(source, cursor), 0) == tok_at(
                self.stream(),
                old(self).position() + 2 + 0,
            ));
            assert forall|k: nat| #[trigger]
                tok_at(token_stream(self.lexer.source(), self.lexer.cursor()), k) == tok_at(
                    self.stream(),
                    self.position() + 2 + k,
                ) by {
                lemma_stream_tail(source, cursor, k);
                assert(tok_at(token_stream(source, cursor), k + 1) == tok_at(
                    self.stream(),
                    old(self).position() + 2 + (k + 1),
                ));
            }
        }
    }

    /// Whether the lookahead is of kind `t`.
    pub fn peek_token_is(&self, t: TokenType) -> (is: bool)
        ensures
            is == (self.peek_token.typo == t),
    {
        self.peek_token.typo == t
    }

    /// Whether the current token is of kind `current`.
    pub fn current_token_is(&self, current: TokenType) -> (is: bool)
        ensures
            is == (self.current_token.typo == current),
    {
        self.current_token.typo == current
    }

    /// Moves one token on if the lookahead is of kind `token`; otherwise
    /// leaves the parser as it is.
    pub fn expect_peek(&mut self, token: TokenType) -> (met: bool)
        requires
            old(self).wf(),
        ensures
            met == (old(self).peek_token.typo == token),
            met ==> final(self).advanced(old(self), 1) && final(self).diagnostics == old(
                self,
            ).diagnostics,
            !met ==> *final(self) == *old(self),
    {
        if self.peek_token_is(token) {
            self.next_token();
            true
        } else {
            false
        }
    }

    /// Records that a token of kind `kind` was expected where the
    /// lookahead stands.
    fn report_peek(&mut self, kind: TokenType)
        ensures
            final(self).reports() == old(self).reports().push(
                mismatch(kind, old(self).peek_token@),
            ),
            final(self).lexer == old(self).lexer,
            final(self).current_token == old(self).current_token,
            final(self).peek_token == old(self).peek_token,
            final(self).tokens == old(self).tokens,
            final(self).consumed == old(self).consumed,
    {
        let found = self.peek_token.clone();
        self.diagnostics.push(Diagnostic { expected: Expected::Kind(kind), found });
        assert(self.reports() =~= old(self).reports().push(mismatch(kind, old(self).peek_token@)));
    }

    /// Records that no expression can start with the current token.
    fn report_current(&mut self)
        ensures
            final(self).reports() == old(self).reports().push(
                no_expression(old(self).current_token@),
            ),
            final(self).lexer == old(self).lexer,
            final(self).current_token == old(self).current_token,
            final(self).peek_token == old(self).peek_token,
            final(self).tokens == old(self).tokens,
            final(self).consumed == old(self).consumed,
    {
        let found = self.current_token.clone();
        self.diagnostics.push(Diagnostic { expected: Expected::Expression, found });
        assert(self.reports() =~= old(self).reports().push(
            no_expression(old(self).current_token@),
        ));
    }

    /// Parses the operand-first part of an expression at the current
    /// token.  A token that cannot start an expression is recorded as a
    /// diagnostic.
    fn parse_prefix(&mut self) -> (result: Option<Expression>)
        requires
            old(self).wf(),
        ensures
            final(self).advanced(
                old(self),
                parse_prefix_at(old(self).stream(), old(self).position()).steps,
            ),
            final(self).reports() == old(self).reports() + failures(
                parse_prefix_at(old(self).stream(), old(self).position()).outcome,
            ),
            yields(result, parse_prefix_at(old(self).stream(), old(self).position()).outcome),
        decreases remaining(old(self).stream(), old(self).position()), 0nat,
    {
        match lookup_prefix(self.current_token.typo) {
            None => {
                self.report_current();
                None
            },
            Some(PrefixRule::Identifier) => {
                assert(self.reports() + Seq::<DiagnosticView>::empty() =~= self.reports());
                Some(
                    Expression::IdentifierRef(
                        Identifier {
                            token: self.current_token.clone(),
                            value: self.current_token.literal.clone(),
                        },
                    ),
                )
            },
            Some(PrefixRule::Integer) => {
                assert(self.reports() + Seq::<DiagnosticView>::empty() =~= self.reports());
                Some(Expression::IntegerLiteral { token: self.current_token.clone() })
            },
            Some(PrefixRule::Unary) => {
                let operator = self.current_token.clone();
                self.next_token();
                match self.parse_expression(Precedence::Prefix) {
                    None => None,
                    Some(operand) => Some(
                        Expression::PrefixExpression { operator, operand: Box::new(operand) },
                    ),
                }
            },
        }
    }

    /// Parses the expression at the current token, reading on while the
    /// operators that follow bind tighter than `min`.  On success the
    /// current token is the last token of the expression.  On failure one
    /// diagnostic is recorded and there is no expression.
    pub fn parse_expression(&mut self, min: Precedence) -> (result: Option<Expression>)
        requires
            old(self).wf(),
        ensures
            final(self).advanced(
                old(self),
                parse_expression_at(old(self).stream(), old(self).position(), min).steps,
            ),
            final(self).reports() == old(self).reports() + failures(
                parse_expression_at(old(self).stream(), old(self).position(), min).outcome,
            ),
            yields(
                result,
                parse_expression_at(old(self).stream(), old(self).position(), min).outcome,
            ),
        decreases remaining(old(self).stream(), old(self).position()), 1nat,
    {
        let ghost tokens = self.stream();
        let ghost start = self.position();
        let ghost prefix = parse_prefix_at(tokens, start);
        let mut left = match self.parse_prefix() {
            None => {
                return None;
            },
            Some(expression) => expression,
        };
        let ghost first = left@;
        let ghost target = parse_infix_from(tokens, start + prefix.steps, first, min);
        assert(self.reports() =~= old(self).reports());
        while lookup_infix(self.peek_token.typo).level() > min.level()
            invariant
                self.wf(),
                self.stream() == tokens,
                self.position() >= start + prefix.steps,
                self.reports() == old(self).reports(),
                tokens == old(self).stream(),
                start == old(self).position(),
                target.outcome == parse_infix_from(tokens, self.position(), left@, min).outcome,
                target.steps == self.position() - (start + prefix.steps) + parse_infix_from(
                    tokens,
                    self.position(),
                    left@,
                    min,
                ).steps,
                failures(target.outcome) == failures(
                    parse_expression_at(tokens, start, min).outcome,
                ),
                parse_expression_at(tokens, start, min).outcome == target.outcome,
                parse_expression_at(tokens, start, min).steps == prefix.steps + target.steps,
            decreases remaining(tokens, self.position()),
        {
            let ghost at = self.position();
            self.next_token();
            let operator = self.current_token.clone();
            let precedence = lookup_infix(operator.typo);
            self.next_token();
            let ghost right = parse_expression_at(tokens, at + 2, precedence);
            match self.parse_expression(precedence) {
                None => {
                    return None;
                },
                Some(expression) => {
                    assert(self.reports() =~= old(self).reports());
                    left =
                    Expression::InfixExpression {
                        operator,
                        left: Box::new(left),
                        right: Box::new(expression),
                    };
                },
            }
        }
        assert(self.reports() + Seq::<DiagnosticView>::empty() =~= self.reports());
        Some(left)
    }

    /// Parses a `let` binding whose first token is the current one: a name,
    /// `=`, an expression and, if one follows, a semicolon.  On success the
    /// current token is the last token of the binding.  On failure one
    /// diagnostic is recorded, there is no statement, and the parser stays
    /// on or before the token that was refused.
    pub fn parse_let_statement(&mut self) -> (result: Option<Statement>)
        requires
            old(self).wf(),
        ensures
            final(self).advanced(
                old(self),
                parse_let_statement_at(old(self).stream(), old(self).position()).steps,
            ),
            final(self).reports() == old(self).reports() + failures(
                parse_let_statement_at(old(self).stream(), old(self).position()).outcome,
            ),
            yields(
                result,
                parse_let_statement_at(old(self).stream(), old(self).position()).outcome,
            ),
    {
        let token = self.current_token.clone();
        if !self.expect_peek(TokenType::Ident) {
            self.report_peek(TokenType::Ident);
            assert(old(self).reports().push(mismatch(TokenType::Ident, old(self).peek_token@))
                =~= old(self).reports() + seq![mismatch(TokenType::Ident, old(self).peek_token@)]);
            return None;
        }
        let name = Identifier {
            token: self.current_token.clone(),
            value: self.current_token.literal.clone(),
        };
        if !self.expect_peek(TokenType::Assign) {
            let ghost found = self.peek_token@;
            self.report_peek(TokenType::Assign);
            assert(old(self).reports().push(mismatch(TokenType::Assign, found)) =~= old(
                self,
            ).reports() + seq![mismatch(TokenType::Assign, found)]);
            return None;
        }
        self.next_token();
        let value = match self.parse_expression(Precedence::Lowest) {
            None => {
                return None;
            },
            Some(expression) => expression,
        };
        if self.peek_token_is(TokenType::SemiColon) {
            self.next_token();
        }
        Some(Statement::LetStatement(LetStatement { token, name: Some(name), value: Some(value) }))
    }

    /// Parses an expression that stands as a statement, and the semicolon
    /// after it if there is one.
    pub fn parse_expression_statement(&mut self) -> (result: Option<Statement>)
        requires
            old(self).wf(),
        ensures
            final(self).advanced(
                old(self),
                parse_expression_statement_at(old(self).stream(), old(self).position()).steps,
            ),
            final(self).reports() == old(self).reports() + failures(
                parse_expression_statement_at(old(self).stream(), old(self).position()).outcome,
            ),
            yields(
                result,
                parse_expression_statement_at(old(self).stream(), old(self).position()).outcome,
            ),
    {
        let token = self.current_token.clone();
        let expression = match self.parse_expression(Precedence::Lowest) {
            None => {
                return None;
            },
            Some(expression) => expression,
        };
        if self.peek_token_is(TokenType::SemiColon) {
            self.next_token();
        }
        Some(Statement::ExpressionStatement(ExpressionStatement { token, expression }))
    }

    /// Parses the statement at the current token: the kind of that token
    /// picks the rule.
    pub fn parse_statement(&mut self) -> (result: Option<Statement>)
        requires
            old(self).wf(),
        ensures
            final(self).advanced(
                old(self),
                parse_statement_at(old(self).stream(), old(self).position()).steps,
            ),
            final(self).reports() == old(self).reports() + failures(
                parse_statement_at(old(self).stream(), old(self).position()).outcome,
            ),
            yields(result, parse_statement_at(old(self).stream(), old(self).position()).outcome),
    {
        match lookup_statement(self.current_token.typo) {
            StatementRule::Let => self.parse_let_statement(),
            StatementRule::Expression => self.parse_expression_statement(),
        }
    }

    /// Moves on to the next semicolon or end-of-input token, unless the
    /// current token is one.
    pub fn skip_to_terminator(&mut self)
        requires
            old(self).wf(),
        ensures
            final(self).advanced(
                old(self),
                steps_to_terminator(old(self).stream(), old(self).position()),
            ),
            final(self).diagnostics == old(self).diagnostics,
    {
        while !(self.current_token_is(TokenType::SemiColon) || self.current_token_is(
            TokenType::EOF,
        ))
            invariant
                self.wf(),
                self.stream() == old(self).stream(),
                self.position() >= old(self).position(),
                self.diagnostics == old(self).diagnostics,
                steps_to_terminator(old(self).stream(), old(self).position()) == self.position()
                    - old(self).position() + steps_to_terminator(self.stream(), self.position()),
            decreases remaining(self.stream(), self.position()),
        {
            self.next_token();
        }
    }

    /// Parses statements until the current token is an end-of-input token.
    /// The statements that parse are returned in source order.  Each one
    /// that does not parse adds one diagnostic, and parsing resumes after
    /// the semicolon that closes it.
    pub fn parse_program(&mut self) -> (program: Program)
        requires
            old(self).wf(),
        ensures
            final(self).advanced(
                old(self),
                parse_program_at(old(self).stream(), old(self).position()).steps,
            ),
            final(self).current_token.typo == TokenType::EOF,
            program@ == parse_program_at(old(self).stream(), old(self).position()).statements,
            final(self).reports() == old(self).reports() + parse_program_at(
                old(self).stream(),
                old(self).position(),
            ).diagnostics,
    {
        let mut program = Program::new();
        let ghost tokens = self.stream();
        let ghost start = self.position();
        let ghost target = parse_program_at(tokens, start);
        assert(self.reports() + target.diagnostics =~= old(self).reports() + target.diagnostics);
        while self.current_token.typo != TokenType::EOF
            invariant
                self.wf(),
                self.stream() == tokens,
                self.position() >= start,
                target.steps == self.position() - start + parse_program_at(
                    tokens,
                    self.position(),
                ).steps,
                target.statements == program@ + parse_program_at(
                    tokens,
                    self.position(),
                ).statements,
                old(self).reports() + target.diagnostics == self.reports() + parse_program_at(
                    tokens,
                    self.position(),
                ).diagnostics,
            decreases remaining(tokens, self.position()),
        {
            let ghost at = self.position();
            let ghost before = self.reports();
            let ghost kept = program@;
            let ghost first = parse_statement_at(tokens, at);
            let ghost here = parse_program_at(tokens, at);
            match self.parse_statement() {
                Some(statement) => {
                    program.statements.push(statement);
                    self.next_token();
                    proof {
                        let rest = parse_program_at(tokens, self.position());
                        assert(program@ =~= kept.push(first.outcome->Ok_0));
                        assert(kept.push(first.outcome->Ok_0) + rest.statements =~= kept + (
                        seq![first.outcome->Ok_0] + rest.statements));
                        assert(self.reports() =~= before);
                    }
                },
                None => {
                    self.skip_to_terminator();
                    self.next_token();
                    proof {
                        let rest = parse_program_at(tokens, self.position());
                        assert(self.reports() + rest.diagnostics =~= before + (
                        seq![first.outcome->Err_0] + rest.diagnostics));
                    }
                },
            }
        }
        proof {
            let rest = parse_program_at(tokens, self.position());
            assert(program@ + rest.statements =~= program@);
            assert(self.reports() + rest.diagnostics =~= self.reports());
        }
        program
    }
}

/// A parse that met failures: what parsed nevertheless, and the failures in
/// the order in which they occurred.
#[derive(Debug)]
pub struct ParseFailure {
    pub program: Program,
    pub diagnostics: Vec<Diagnostic>,
}

/// What parsing the whole of `source` yields.
pub open spec fn parse_source(source: Seq<char>) -> ProgramParse {
    parse_program_at(token_stream(source, 0), 0)
}

/// Parses the whole of `source`.  The result is the program if every
/// statement parsed, and otherwise the statements that did parse together
/// with one diagnostic for each that did not.
pub fn parse(source: String) -> (result: Result<Program, ParseFailure>)
    ensures
        match result {
            Ok(program) => {
                &&& parse_source(source@).diagnostics.len() == 0
                &&& program@ == parse_source(source@).statements
                &&& complete(program@)
            },
            Err(failure) => {
                &&& parse_source(source@).diagnostics.len() > 0
                &&& failure.program@ == parse_source(source@).statements
                &&& diagnostic_views(failure.diagnostics@) == parse_source(source@).diagnostics
                &&& complete(failure.program@)
            },
        },
{
    proof {
        lemma_parsed_text_is_complete(source@, 0);
    }
    let lexer = Lexer::new(source);
    let mut parser = Parser::new(lexer);
    let program = parser.parse_program();
    assert(parser.reports() =~= parse_source(source@).diagnostics);
    let diagnostics = parser.diagnostics;
    if diagnostics.len() == 0 {
        Ok(program)
    } else {
        Err(ParseFailure { program, diagnostics })
    }
}

/// Whether `result` is what a parse with outcome `outcome` hands out: a
/// value with the parsed view, or nothing after a failure.
pub open spec fn yields<T: View>(result: Option<T>, outcome: Result<T::V, DiagnosticView>) -> bool {
    match outcome {
        Ok(value) => result matches Some(r) && r@ == value,
        Err(_) => result is None,
    }
}

} // verus!
