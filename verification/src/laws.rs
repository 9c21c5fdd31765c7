//! What holds of every parse: the tree that the grammar yields reads back
//! as the tokens it was made from, its operators are grouped by their
//! binding strength, and a refused token is never read twice.

use vstd::prelude::*;
use crate::token::{TokenType, TokenView};
use crate::lexer::{lexical, tok_at, token_stream, lemma_stream_is_lexical};
use crate::ast::{ExpressionView, IdentifierView, LetStatementView, StatementView};
use crate::diagnostic::{DiagnosticView, Expected};
use crate::grammar::{
    Precedence,
    PrefixRule,
    StatementRule,
    prefix_rule,
    infix_precedence,
    statement_rule,
    remaining,
    no_expression,
    mismatch,
    parse_prefix_at,
    parse_infix_from,
    parse_expression_at,
    terminator_steps,
    parse_let_statement_at,
    parse_statement_at,
    steps_to_terminator,
    parse_program_at,
    resume_position,
};

verus! {

/// The tokens at the positions `from` to `to`, both included.
pub open spec fn span(tokens: Seq<TokenView>, from: nat, to: nat) -> Seq<TokenView> {
    tokens.subrange(from as int, to as int + 1)
}

/// The tokens of an expression, in the order of the source text.
pub open spec fn expression_tokens(expression: ExpressionView) -> Seq<TokenView>
    decreases expression,
{
    match expression {
        ExpressionView::IntegerLiteral { token } => seq![token],
        ExpressionView::IdentifierRef(identifier) => seq![identifier.token],
        ExpressionView::PrefixExpression { operator, operand } => seq![operator]
            + expression_tokens(*operand),
        ExpressionView::InfixExpression { operator, left, right } => expression_tokens(*left)
            + seq![operator] + expression_tokens(*right),
    }
}

/// How tightly the outermost operator of an expression binds.  A name, an
/// integer and a prefix expression bind tighter than every infix operator.
pub open spec fn binding(expression: ExpressionView) -> nat {
    match expression {
        ExpressionView::InfixExpression { operator, .. } => infix_precedence(operator.typo).rank(),
        _ => Precedence::Prefix.rank() + 1,
    }
}

/// Whether an expression is one that the grammar can yield: every node
/// carries a token of its kind, the right operand of an infix operator binds
/// tighter than the operator, its left operand binds at least as tight, and
/// the operand of a prefix operator binds tighter than every infix operator.
pub open spec fn well_formed_expression(expression: ExpressionView) -> bool
    decreases expression,
{
    match expression {
        ExpressionView::IntegerLiteral { token } => token.typo == TokenType::Int,
        ExpressionView::IdentifierRef(identifier) => {
            &&& identifier.token.typo == TokenType::Ident
            &&& identifier.value == identifier.token.literal
        },
        ExpressionView::PrefixExpression { operator, operand } => {
            &&& prefix_rule(operator.typo) == Some(PrefixRule::Unary)
            &&& well_formed_expression(*operand)
            &&& binding(*operand) > Precedence::Prefix.rank()
        },
        ExpressionView::InfixExpression { operator, left, right } => {
            &&& infix_precedence(operator.typo) != Precedence::Lowest
            &&& well_formed_expression(*left)
            &&& well_formed_expression(*right)
            &&& binding(*left) >= infix_precedence(operator.typo).rank()
            &&& binding(*right) > infix_precedence(operator.typo).rank()
        },
    }
}

/// Whether a statement is complete: a `let` binding starts with the `let`
/// keyword and has both its name and its value, the name is an identifier
/// spelled as its token, and an expression statement starts with the first
/// token of its expression.  Every expression in it is well formed.
pub open spec fn well_formed_statement(statement: StatementView) -> bool {
    match statement {
        StatementView::LetStatement(binding) => {
            &&& binding.token.typo == TokenType::Let
            &&& binding.name matches Some(name)
            &&& name.token.typo == TokenType::Ident
            &&& name.value == name.token.literal
            &&& binding.value matches Some(value)
            &&& well_formed_expression(value)
        },
        StatementView::ExpressionStatement(statement) => {
            &&& well_formed_expression(statement.expression)
            &&& statement.token == expression_tokens(statement.expression)[0]
        },
    }
}

/// The tokens of a statement without its closing semicolon, in the order of
/// the source text.  `assign` is the token between the name and the value of
/// a `let` binding, which the tree does not keep.
pub open spec fn statement_tokens(statement: StatementView, assign: TokenView) -> Seq<TokenView> {
    match statement {
        StatementView::LetStatement(binding) => seq![binding.token, binding.name->0.token, assign]
            + expression_tokens(binding.value->0),
        StatementView::ExpressionStatement(statement) => expression_tokens(statement.expression),
    }
}

/// What holds of an expression parse that covers the tokens from `from` to
/// the cursor `i + parse.steps`.
///
/// On success the expression is well formed and binds tighter than `min`,
/// its tokens are exactly the tokens covered, and the operator after it, if
/// there is one, does not bind tighter than `min`.
///
/// On failure the diagnostic names the token under the cursor, and no
/// expression can start with that token.
pub open spec fn expression_parse_holds(
    tokens: Seq<TokenView>,
    from: nat,
    i: nat,
    min: Precedence,
    steps: nat,
    outcome: Result<ExpressionView, DiagnosticView>,
) -> bool {
    let end = i + steps;
    match outcome {
        Ok(expression) => {
            &&& end < tokens.len()
            &&& expression_tokens(expression) == span(tokens, from, end)
            &&& well_formed_expression(expression)
            &&& binding(expression) > min.rank()
            &&& infix_precedence(tok_at(tokens, end + 1).typo).rank() <= min.rank()
        },
        Err(diagnostic) => {
            &&& diagnostic == no_expression(tok_at(tokens, end))
            &&& prefix_rule(tok_at(tokens, end).typo) is None
        },
    }
}

proof fn lemma_prefix_parse(tokens: Seq<TokenView>, i: nat)
    ensures
        expression_parse_holds(
            tokens,
            i,
            i,
            Precedence::Prefix,
            parse_prefix_at(tokens, i).steps,
            parse_prefix_at(tokens, i).outcome,
        ),
        parse_prefix_at(tokens, i).outcome matches Ok(expression) ==> binding(expression)
            > Precedence::Prefix.rank(),
    decreases remaining(tokens, i), 0nat,
{
    let tok = tok_at(tokens, i);
    match prefix_rule(tok.typo) {
        None => {},
        Some(PrefixRule::Identifier) => {
            assert(span(tokens, i, i) =~= seq![tok]);
        },
        Some(PrefixRule::Integer) => {
            assert(span(tokens, i, i) =~= seq![tok]);
        },
        Some(PrefixRule::Unary) => {
            lemma_expression_parse(tokens, i + 1, Precedence::Prefix);
            let operand = parse_expression_at(tokens, i + 1, Precedence::Prefix);
            match operand.outcome {
                Ok(expression) => {
                    let end = i + 1 + operand.steps;
                    assert(seq![tok] + span(tokens, i + 1, end) =~= span(tokens, i, end));
                },
                Err(_) => {},
            }
        },
    }
}

proof fn lemma_infix_parse(
    tokens: Seq<TokenView>,
    from: nat,
    i: nat,
    left: ExpressionView,
    min: Precedence,
)
    requires
        from <= i < tokens.len(),
        expression_tokens(left) == span(tokens, from, i),
        well_formed_expression(left),
        binding(left) > min.rank(),
        binding(left) >= infix_precedence(tok_at(tokens, i + 1).typo).rank(),
    ensures
        expression_parse_holds(
            tokens,
            from,
            i,
            min,
            parse_infix_from(tokens, i, left, min).steps,
            parse_infix_from(tokens, i, left, min).outcome,
        ),
    decreases remaining(tokens, i), 0nat,
{
    let operator = tok_at(tokens, i + 1);
    let strength = infix_precedence(operator.typo);
    if strength.rank() > min.rank() {
        lemma_expression_parse(tokens, i + 2, strength);
        let right = parse_expression_at(tokens, i + 2, strength);
        match right.outcome {
            Err(_) => {},
            Ok(expression) => {
                let end = i + 2 + right.steps;
                let joined = ExpressionView::InfixExpression {
                    operator,
                    left: Box::new(left),
                    right: Box::new(expression),
                };
                assert(span(tokens, from, i) + seq![operator] + span(tokens, i + 2, end) =~= span(tokens, from, end));
                lemma_infix_parse(tokens, from, end, joined, min);
            },
        }
    }
}

/// Every expression parse holds what `expression_parse_holds` says, of the
/// tokens from its first position to the cursor.
pub proof fn lemma_expression_parse(tokens: Seq<TokenView>, i: nat, min: Precedence)
    ensures
        expression_parse_holds(
            tokens,
            i,
            i,
            min,
            parse_expression_at(tokens, i, min).steps,
            parse_expression_at(tokens, i, min).outcome,
        ),
    decreases remaining(tokens, i), 1nat,
{
    lemma_prefix_parse(tokens, i);
    let prefix = parse_prefix_at(tokens, i);
    match prefix.outcome {
        Err(_) => {},
        Ok(left) => {
            lemma_infix_parse(tokens, i, i + prefix.steps, left, min);
        },
    }
}

/// An expression has at least one token.
pub proof fn lemma_expression_has_tokens(expression: ExpressionView)
    ensures
        expression_tokens(expression).len() > 0,
    decreases expression,
{
    match expression {
        ExpressionView::PrefixExpression { operator, operand } => {
            lemma_expression_has_tokens(*operand);
        },
        ExpressionView::InfixExpression { operator, left, right } => {
            lemma_expression_has_tokens(*left);
            lemma_expression_has_tokens(*right);
        },
        _ => {},
    }
}

/// Whether the tokens of `expression` stand in `tokens` from position `from`
/// on.
pub open spec fn stands_at(tokens: Seq<TokenView>, from: nat, expression: ExpressionView) -> bool {
    &&& from + expression_tokens(expression).len() <= tokens.len()
    &&& tokens.subrange(from as int, from as int + expression_tokens(expression).len())
        == expression_tokens(expression)
}

/// The position of the last token of `expression` if its tokens stand from
/// position `from` on.
pub open spec fn last_position(from: nat, expression: ExpressionView) -> nat {
    (from + expression_tokens(expression).len() - 1) as nat
}

/// Where the tokens of a well-formed expression stand, followed by no
/// operator that binds tighter than its outermost one, the parser reads all
/// of them as that expression before it looks for further operators.
proof fn lemma_reads_expression(
    tokens: Seq<TokenView>,
    from: nat,
    expression: ExpressionView,
    min: Precedence,
)
    requires
        well_formed_expression(expression),
        stands_at(tokens, from, expression),
        binding(expression) > min.rank(),
        infix_precedence(tok_at(tokens, last_position(from, expression) + 1).typo).rank()
            <= binding(expression),
    ensures
        parse_expression_at(tokens, from, min).outcome == parse_infix_from(
            tokens,
            last_position(from, expression),
            expression,
            min,
        ).outcome,
        parse_expression_at(tokens, from, min).steps == last_position(from, expression) - from
            + parse_infix_from(tokens, last_position(from, expression), expression, min).steps,
    decreases expression,
{
    lemma_expression_has_tokens(expression);
    let all = expression_tokens(expression);
    let n = all.len() as int;
    let f = from as int;
    assert forall|k: int| 0 <= k < n implies tokens[f + k] == all[k] by {
        assert(tokens.subrange(f, f + n)[k] == tokens[f + k]);
    }
    assert(tokens[f + 0] == all[0]);
    match expression {
        ExpressionView::IntegerLiteral { token } => {},
        ExpressionView::IdentifierRef(identifier) => {},
        ExpressionView::PrefixExpression { operator, operand } => {
            let inner = expression_tokens(*operand);
            lemma_expression_has_tokens(*operand);
            assert(tokens.subrange(f + 1, f + 1 + inner.len()) =~= inner) by {
                assert forall|k: int| 0 <= k < inner.len() implies tokens[f + 1 + k]
                    == inner[k] by {
                    assert(all[k + 1] == inner[k]);
                }
            }
            lemma_reads_expression(tokens, from + 1, *operand, Precedence::Prefix);
            let reached = parse_expression_at(tokens, from + 1, Precedence::Prefix);
            assert(reached.outcome == Ok::<ExpressionView, DiagnosticView>(*operand));
            assert(parse_prefix_at(tokens, from).outcome == Ok::<ExpressionView, DiagnosticView>(
                expression,
            ));
        },
        ExpressionView::InfixExpression { operator, left, right } => {
            let before = expression_tokens(*left);
            let after = expression_tokens(*right);
            lemma_expression_has_tokens(*left);
            lemma_expression_has_tokens(*right);
            let at = f + before.len();
            assert(tokens.subrange(f, f + before.len()) =~= before) by {
                assert forall|k: int| 0 <= k < before.len() implies tokens[f + k]
                    == before[k] by {
                    assert(all[k] == before[k]);
                }
            }
            assert(tokens[at] == operator) by {
                assert(all[before.len() as int] == operator);
            }
            assert(tokens.subrange(at + 1, at + 1 + after.len()) =~= after) by {
                assert forall|k: int| 0 <= k < after.len() implies tokens[at + 1 + k]
                    == after[k] by {
                    assert(all[before.len() + 1 + k] == after[k]);
                }
            }
            lemma_reads_expression(tokens, from, *left, min);
            lemma_reads_expression(tokens, (at + 1) as nat, *right, infix_precedence(operator.typo));
            let reached = parse_expression_at(
                tokens,
                (at + 1) as nat,
                infix_precedence(operator.typo),
            );
            assert(reached.outcome == Ok::<ExpressionView, DiagnosticView>(*right));
            assert(last_position((at + 1) as nat, *right) == last_position(from, expression));
        },
    }
}

/// Parsing is the inverse of writing an expression out: where the tokens of
/// a well-formed expression that binds tighter than `min` stand, followed by
/// no operator that binds tighter than `min`, the parser yields that
/// expression and ends on its last token.
pub proof fn lemma_parse_inverts_tokens(
    tokens: Seq<TokenView>,
    from: nat,
    expression: ExpressionView,
    min: Precedence,
)
    requires
        well_formed_expression(expression),
        stands_at(tokens, from, expression),
        binding(expression) > min.rank(),
        infix_precedence(tok_at(tokens, last_position(from, expression) + 1).typo).rank()
            <= min.rank(),
    ensures
        parse_expression_at(tokens, from, min).outcome == Ok::<ExpressionView, DiagnosticView>(
            expression,
        ),
        parse_expression_at(tokens, from, min).steps == expression_tokens(expression).len() - 1,
{
    lemma_expression_has_tokens(expression);
    lemma_reads_expression(tokens, from, expression, min);
}

/// What holds of a statement parse at position `i`.
///
/// On success the statement is well formed and starts with the token at
/// `i`, and the tokens covered are exactly the tokens of the statement,
/// followed by a semicolon if one stands there; the covered `let` binding
/// has an `=` between its name and its value.
///
/// On failure the diagnostic names either the token under the cursor, with
/// which no expression can start, or the lookahead, which is not of the
/// kind that a `let` binding needs there; in that case the cursor is on the
/// `let` keyword or on the name.
pub open spec fn statement_parse_holds(
    tokens: Seq<TokenView>,
    i: nat,
    steps: nat,
    outcome: Result<StatementView, DiagnosticView>,
) -> bool {
    let end = i + steps;
    match outcome {
        Ok(statement) => {
            &&& end < tokens.len()
            &&& well_formed_statement(statement)
            &&& statement_tokens(statement, tok_at(tokens, i + 2))[0] == tok_at(tokens, i)
            &&& statement is LetStatement ==> tok_at(tokens, i + 2).typo == TokenType::Assign
            &&& {
                ||| {
                    &&& tok_at(tokens, end + 1).typo != TokenType::SemiColon
                    &&& span(tokens, i, end) == statement_tokens(statement, tok_at(tokens, i + 2))
                }
                ||| {
                    &&& tok_at(tokens, end).typo == TokenType::SemiColon
                    &&& span(tokens, i, end) == statement_tokens(
                        statement,
                        tok_at(tokens, i + 2),
                    ).push(tok_at(tokens, end))
                }
            }
        },
        Err(diagnostic) => {
            ||| {
                &&& diagnostic == no_expression(tok_at(tokens, end))
                &&& prefix_rule(tok_at(tokens, end).typo) is None
            }
            ||| {
                &&& statement_rule(tok_at(tokens, i).typo) == StatementRule::Let
                &&& steps == 0
                &&& diagnostic == mismatch(TokenType::Ident, tok_at(tokens, end + 1))
                &&& tok_at(tokens, end + 1).typo != TokenType::Ident
            }
            ||| {
                &&& statement_rule(tok_at(tokens, i).typo) == StatementRule::Let
                &&& steps == 1
                &&& tok_at(tokens, end).typo == TokenType::Ident
                &&& diagnostic == mismatch(TokenType::Assign, tok_at(tokens, end + 1))
                &&& tok_at(tokens, end + 1).typo != TokenType::Assign
            }
        },
    }
}

/// Every statement parse holds what `statement_parse_holds` says.
pub proof fn lemma_statement_parse(tokens: Seq<TokenView>, i: nat)
    ensures
        statement_parse_holds(
            tokens,
            i,
            parse_statement_at(tokens, i).steps,
            parse_statement_at(tokens, i).outcome,
        ),
{
    let parse = parse_statement_at(tokens, i);
    match statement_rule(tok_at(tokens, i).typo) {
        StatementRule::Let => {
            let name = tok_at(tokens, i + 1);
            let assign = tok_at(tokens, i + 2);
            if name.typo == TokenType::Ident && assign.typo == TokenType::Assign {
                lemma_expression_parse(tokens, i + 3, Precedence::Lowest);
                let value = parse_expression_at(tokens, i + 3, Precedence::Lowest);
                match value.outcome {
                    Err(_) => {},
                    Ok(expression) => {
                        let last = i + 3 + value.steps;
                        let head = seq![tok_at(tokens, i), name, assign];
                        assert(head + span(tokens, i + 3, last) =~= span(tokens, i, last));
                        if terminator_steps(tokens, last) == 1 {
                            assert(span(tokens, i, last + 1) =~= span(tokens, i, last).push(tok_at(tokens, last + 1)));
                        }
                    },
                }
            }
        },
        StatementRule::Expression => {
            lemma_expression_parse(tokens, i, Precedence::Lowest);
            let value = parse_expression_at(tokens, i, Precedence::Lowest);
            match value.outcome {
                Err(_) => {},
                Ok(expression) => {
                    let last = i + value.steps;
                    if terminator_steps(tokens, last) == 1 {
                        assert(span(tokens, i, last + 1) =~= span(tokens, i, last).push(tok_at(tokens, last + 1)));
                    }
                },
            }
        },
    }
}

/// Parsing is the inverse of writing a `let` binding out: where a name, an
/// `=` and the tokens of a well-formed expression follow the current token,
/// and no operator follows them, the parser yields the binding of that name
/// to that expression, and ends on the expression's last token or on the
/// semicolon after it.
pub proof fn lemma_parse_inverts_let(
    tokens: Seq<TokenView>,
    i: nat,
    name: TokenView,
    value: ExpressionView,
)
    requires
        tok_at(tokens, i + 1) == name,
        name.typo == TokenType::Ident,
        tok_at(tokens, i + 2).typo == TokenType::Assign,
        well_formed_expression(value),
        stands_at(tokens, i + 3, value),
        infix_precedence(tok_at(tokens, last_position(i + 3, value) + 1).typo)
            == Precedence::Lowest,
    ensures
        parse_let_statement_at(tokens, i).outcome == Ok::<StatementView, DiagnosticView>(
            StatementView::LetStatement(
                LetStatementView {
                    token: tok_at(tokens, i),
                    name: Some(IdentifierView { token: name, value: name.literal }),
                    value: Some(value),
                },
            ),
        ),
        parse_let_statement_at(tokens, i).steps == last_position(i + 3, value) - i
            + terminator_steps(tokens, last_position(i + 3, value)),
{
    lemma_expression_has_tokens(value);
    lemma_parse_inverts_tokens(tokens, i + 3, value, Precedence::Lowest);
}

/// The position of the token that the diagnostic of a failed statement
/// names: the cursor where no expression could start, the lookahead where
/// a `let` binding needed another kind of token.
pub open spec fn refused_position(tokens: Seq<TokenView>, i: nat) -> nat {
    let first = parse_statement_at(tokens, i);
    match first.outcome {
        Ok(_) => i,
        Err(diagnostic) => if diagnostic.expected == Expected::Expression {
            i + first.steps
        } else {
            i + first.steps + 1
        },
    }
}

/// A statement that fails to parse is passed as a whole: the diagnostic
/// names a token of the stream at or after the start of the statement, and
/// the next statement starts after that token.
pub proof fn lemma_refused_token_is_passed(tokens: Seq<TokenView>, i: nat)
    requires
        parse_statement_at(tokens, i).outcome is Err,
    ensures
        parse_statement_at(tokens, i).outcome->Err_0.found == tok_at(
            tokens,
            refused_position(tokens, i),
        ),
        i <= refused_position(tokens, i) < resume_position(tokens, i),
{
    lemma_statement_parse(tokens, i);
    let first = parse_statement_at(tokens, i);
    let diagnostic = first.outcome->Err_0;
    if diagnostic.expected != Expected::Expression {
        reveal_with_fuel(steps_to_terminator, 2);
    }
}

/// What holds of every program parse: it ends where the current token is an
/// end-of-input token, every statement in it is well formed and starts with
/// a token of the stream, and each statement and each diagnostic accounts
/// for at least one step.
pub proof fn lemma_program_parse(tokens: Seq<TokenView>, i: nat)
    ensures
        tok_at(tokens, i + parse_program_at(tokens, i).steps).typo == TokenType::EOF,
        parse_program_at(tokens, i).statements.len() + parse_program_at(
            tokens,
            i,
        ).diagnostics.len() <= parse_program_at(tokens, i).steps,
        forall|k: int|
            0 <= k < parse_program_at(tokens, i).statements.len() ==> {
                &&& well_formed_statement(#[trigger] parse_program_at(tokens, i).statements[k])
                &&& exists|j: nat|
                    parse_program_at(tokens, i).statements[k].token() == tok_at(tokens, j)
            },
    decreases remaining(tokens, i),
{
    let parse = parse_program_at(tokens, i);
    if tok_at(tokens, i).typo != TokenType::EOF {
        let next = resume_position(tokens, i);
        let first = parse_statement_at(tokens, i);
        lemma_statement_parse(tokens, i);
        lemma_program_parse(tokens, next);
        let rest = parse_program_at(tokens, next);
        assert forall|k: int| 0 <= k < parse.statements.len() implies {
            &&& well_formed_statement(#[trigger] parse.statements[k])
            &&& exists|j: nat| parse.statements[k].token() == tok_at(tokens, j)
        } by {
            match first.outcome {
                Ok(statement) => {
                    if k == 0 {
                        assert(parse.statements[k] == statement);
                        assert(statement.token() == tok_at(tokens, i));
                    } else {
                        assert(parse.statements[k] == rest.statements[k - 1]);
                    }
                },
                Err(_) => {
                    assert(parse.statements[k] == rest.statements[k]);
                },
            }
        }
    }
}

/// In a program parsed from lexical tokens every statement starts with a
/// lexical token: a `let` binding with the keyword `let` in its own
/// spelling.
pub proof fn lemma_statements_start_lexical(tokens: Seq<TokenView>, i: nat)
    requires
        forall|j: nat| lexical(#[trigger] tok_at(tokens, j)),
    ensures
        forall|k: int|
            0 <= k < parse_program_at(tokens, i).statements.len() ==> lexical(
                #[trigger] parse_program_at(tokens, i).statements[k].token(),
            ),
        forall|k: int|
            0 <= k < parse_program_at(tokens, i).statements.len() && (#[trigger] parse_program_at(
                tokens,
                i,
            ).statements[k]) is LetStatement ==> parse_program_at(tokens, i).statements[k].token()
                == (TokenView { typo: TokenType::Let, literal: seq!['l', 'e', 't'] }),
{
    lemma_program_parse(tokens, i);
    let parse = parse_program_at(tokens, i);
    assert forall|k: int| 0 <= k < parse.statements.len() implies lexical(
        #[trigger] parse.statements[k].token(),
    ) by {
        let j = choose|j: nat| parse.statements[k].token() == tok_at(tokens, j);
        assert(lexical(tok_at(tokens, j)));
    }
    assert forall|k: int|
        0 <= k < parse.statements.len() && (#[trigger] parse.statements[k]) is LetStatement implies parse.statements[k].token()
        == (TokenView { typo: TokenType::Let, literal: seq!['l', 'e', 't'] }) by {
        assert(lexical(parse.statements[k].token()));
        assert(well_formed_statement(parse.statements[k]));
    }
}

/// Whether every statement is well formed and starts with a lexical token.
pub open spec fn complete(statements: Seq<StatementView>) -> bool {
    forall|k: int|
        0 <= k < statements.len() ==> well_formed_statement(#[trigger] statements[k]) && lexical(
            statements[k].token(),
        )
}

/// A program parsed from the token stream of a text holds complete
/// statements only.
pub proof fn lemma_parsed_text_is_complete(source: Seq<char>, pos: nat)
    ensures
        complete(parse_program_at(token_stream(source, pos), 0).statements),
{
    let tokens = token_stream(source, pos);
    assert forall|j: nat| lexical(#[trigger] tok_at(tokens, j)) by {
        lemma_stream_is_lexical(source, pos, j);
    }
    lemma_program_parse(tokens, 0);
    lemma_statements_start_lexical(tokens, 0);
}

} // verus!
