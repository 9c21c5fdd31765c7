//! The syntax tree: programs, statements and expressions as closed sum types.

use vstd::prelude::*;
use crate::token::{Token, TokenView};

verus! {

/// A name in the source text.
#[derive(Debug)]
pub struct Identifier {
    pub token: Token,
    pub value: String,
}

/// The mathematical value of an identifier.
pub struct IdentifierView {
    pub token: TokenView,
    pub value: Seq<char>,
}

impl View for Identifier {
    type V = IdentifierView;

    open spec fn view(&self) -> IdentifierView {
        IdentifierView { token: self.token@, value: self.value@ }
    }
}

impl Clone for Identifier {
    fn clone(&self) -> (copy: Self)
        ensures
            copy@ == self@,
    {
        Identifier { token: self.token.clone(), value: self.value.clone() }
    }
}

impl Identifier {
    fn token_literal(&self) -> (literal: String)
        ensures
            literal@ == self.token.literal@,
    {
        self.token.literal.clone()
    }
}

/// An expression.  Each node owns its operands.
#[derive(Debug)]
pub enum Expression {
    /// A run of decimal digits, kept as its token.
    IntegerLiteral { token: Token },
    /// A use of a name.
    IdentifierRef(Identifier),
    /// A unary operator applied to an operand.
    PrefixExpression { operator: Token, operand: Box<Expression> },
    /// A binary operator applied to two operands.
    InfixExpression { operator: Token, left: Box<Expression>, right: Box<Expression> },
}

/// The mathematical value of an expression.
pub enum ExpressionView {
    IntegerLiteral { token: TokenView },
    IdentifierRef(IdentifierView),
    PrefixExpression { operator: TokenView, operand: Box<ExpressionView> },
    InfixExpression { operator: TokenView, left: Box<ExpressionView>, right: Box<ExpressionView> },
}

impl View for Expression {
    type V = ExpressionView;

    open spec fn view(&self) -> ExpressionView
        decreases self,
    {
        match self {
            Expression::IntegerLiteral { token } => ExpressionView::IntegerLiteral {
                token: token@,
            },
            Expression::IdentifierRef(identifier) => ExpressionView::IdentifierRef(identifier@),
            Expression::PrefixExpression { operator, operand } => ExpressionView::PrefixExpression {
                operator: operator@,
                operand: Box::new((**operand).view()),
            },
            Expression::InfixExpression { operator, left, right } => ExpressionView::InfixExpression {
                operator: operator@,
                left: Box::new((**left).view()),
                right: Box::new((**right).view()),
            },
        }
    }
}

/// A copy of `expression` with the same value.
fn clone_expression(expression: &Expression) -> (copy: Expression)
    ensures
        copy@ == expression@,
    decreases expression,
{
    match expression {
        Expression::IntegerLiteral { token } => Expression::IntegerLiteral { token: token.clone() },
        Expression::IdentifierRef(identifier) => Expression::IdentifierRef(identifier.clone()),
        Expression::PrefixExpression { operator, operand } => Expression::PrefixExpression {
            operator: operator.clone(),
            operand: Box::new(clone_expression(operand)),
        },
        Expression::InfixExpression { operator, left, right } => Expression::InfixExpression {
            operator: operator.clone(),
            left: Box::new(clone_expression(left)),
            right: Box::new(clone_expression(right)),
        },
    }
}

impl Clone for Expression {
    fn clone(&self) -> (copy: Self)
        ensures
            copy@ == self@,
    {
        clone_expression(self)
    }
}

impl ExpressionView {
    /// The token that the expression starts from: the literal or name
    /// itself, or the operator of a compound expression.
    pub open spec fn token(self) -> TokenView {
        match self {
            ExpressionView::IntegerLiteral { token } => token,
            ExpressionView::IdentifierRef(identifier) => identifier.token,
            ExpressionView::PrefixExpression { operator, .. } => operator,
            ExpressionView::InfixExpression { operator, .. } => operator,
        }
    }
}

/// A `let` binding.  The parser only hands out bindings with both the name
/// and the value present.
#[derive(Debug)]
pub struct LetStatement {
    pub token: Token,
    pub name: Option<Identifier>,
    pub value: Option<Expression>,
}

/// The mathematical value of a `let` binding.
pub struct LetStatementView {
    pub token: TokenView,
    pub name: Option<IdentifierView>,
    pub value: Option<ExpressionView>,
}

impl View for LetStatement {
    type V = LetStatementView;

    open spec fn view(&self) -> LetStatementView {
        LetStatementView {
            token: self.token@,
            name: match self.name {
                Some(name) => Some(name@),
                None => None,
            },
            value: match self.value {
                Some(value) => Some(value@),
                None => None,
            },
        }
    }
}

impl Clone for LetStatement {
    fn clone(&self) -> (copy: Self)
        ensures
            copy@ == self@,
    {
        LetStatement {
            token: self.token.clone(),
            name: match &self.name {
                Some(name) => Some(name.clone()),
                None => None,
            },
            value: match &self.value {
                Some(value) => Some(value.clone()),
                None => None,
            },
        }
    }
}

impl LetStatement {
    fn token_literal(&self) -> (literal: String)
        ensures
            literal@ == self.token.literal@,
    {
        self.token.literal.clone()
    }
}

/// An expression that stands as a statement.  `token` is the first token of
/// the expression.
#[derive(Debug)]
pub struct ExpressionStatement {
    pub token: Token,
    pub expression: Expression,
}

/// The mathematical value of an expression statement.
pub struct ExpressionStatementView {
    pub token: TokenView,
    pub expression: ExpressionView,
}

impl View for ExpressionStatement {
    type V = ExpressionStatementView;

    open spec fn view(&self) -> ExpressionStatementView {
        ExpressionStatementView { token: self.token@, expression: self.expression@ }
    }
}

impl Clone for ExpressionStatement {
    fn clone(&self) -> (copy: Self)
        ensures
            copy@ == self@,
    {
        ExpressionStatement { token: self.token.clone(), expression: self.expression.clone() }
    }
}

/// A statement.
#[derive(Debug)]
pub enum Statement {
    LetStatement(LetStatement),
    ExpressionStatement(ExpressionStatement),
}

/// The mathematical value of a statement.
pub enum StatementView {
    LetStatement(LetStatementView),
    ExpressionStatement(ExpressionStatementView),
}

impl View for Statement {
    type V = StatementView;

    open spec fn view(&self) -> StatementView {
        match self {
            Statement::LetStatement(statement) => StatementView::LetStatement(statement@),
            Statement::ExpressionStatement(statement) => StatementView::ExpressionStatement(
                statement@,
            ),
        }
    }
}

impl Clone for Statement {
    fn clone(&self) -> (copy: Self)
        ensures
            copy@ == self@,
    {
        match self {
            Statement::LetStatement(statement) => Statement::LetStatement(statement.clone()),
            Statement::ExpressionStatement(statement) => Statement::ExpressionStatement(
                statement.clone(),
            ),
        }
    }
}

impl StatementView {
    /// The token that introduces the statement.
    pub open spec fn token(self) -> TokenView {
        match self {
            StatementView::LetStatement(statement) => statement.token,
            StatementView::ExpressionStatement(statement) => statement.token,
        }
    }
}

/// The values of the statements in `statements`, in order.
pub open spec fn statement_views(statements: Seq<Statement>) -> Seq<StatementView> {
    Seq::new(statements.len(), |i: int| statements[i]@)
}

/// A program: its statements in source order.
#[derive(Debug)]
pub struct Program {
    pub statements: Vec<Statement>,
}

impl View for Program {
    type V = Seq<StatementView>;

    open spec fn view(&self) -> Seq<StatementView> {
        statement_views(self.statements@)
    }
}

impl Clone for Program {
    fn clone(&self) -> (copy: Self)
        ensures
            copy@ == self@,
    {
        let mut statements: Vec<Statement> = Vec::new();
        let mut i: usize = 0;
        while i < self.statements.len()
            invariant
                i <= self.statements.len(),
                statements.len() == i,
                forall|k: int| 0 <= k < i ==> statements[k]@ == self.statements[k]@,
            decreases self.statements.len() - i,
        {
            statements.push(self.statements[i].clone());
            i += 1;
        }
        let copy = Program { statements };
        assert(copy@ =~= self@);
        copy
    }
}

impl Program {
    /// The empty program.
    pub fn new() -> (program: Self)
        ensures
            program.statements@ == Seq::<Statement>::empty(),
            program@ == Seq::<StatementView>::empty(),
    {
        let program = Program { statements: Vec::new() };
        assert(program@ =~= Seq::<StatementView>::empty());
        program
    }
}

/// Any node of the tree.
#[derive(Debug)]
pub enum Node {
    Program(Program),
    Statement(Statement),
    Expression(Expression),
}

/// The mathematical value of a node.
pub enum NodeView {
    Program(Seq<StatementView>),
    Statement(StatementView),
    Expression(ExpressionView),
}

impl View for Node {
    type V = NodeView;

    open spec fn view(&self) -> NodeView {
        match self {
            Node::Program(program) => NodeView::Program(program@),
            Node::Statement(statement) => NodeView::Statement(statement@),
            Node::Expression(expression) => NodeView::Expression(expression@),
        }
    }
}

impl Clone for Node {
    fn clone(&self) -> (copy: Self)
        ensures
            copy@ == self@,
    {
        match self {
            Node::Program(program) => Node::Program(program.clone()),
            Node::Statement(statement) => Node::Statement(statement.clone()),
            Node::Expression(expression) => Node::Expression(expression.clone()),
        }
    }
}

/// The text by which a node introduces itself.
pub trait NodeTrait {
    /// The literal of the node's leading token.
    spec fn leading_literal(&self) -> Seq<char>;

    fn token_literal(&self) -> (literal: String)
        ensures
            literal@ == self.leading_literal(),
    ;
}

impl NodeTrait for Expression {
    open spec fn leading_literal(&self) -> Seq<char> {
        self@.token().literal
    }

    fn token_literal(&self) -> (literal: String) {
        match self {
            Expression::IntegerLiteral { token } => token.literal.clone(),
            Expression::IdentifierRef(identifier) => identifier.token_literal(),
            Expression::PrefixExpression { operator, .. } => operator.literal.clone(),
            Expression::InfixExpression { operator, .. } => operator.literal.clone(),
        }
    }
}

impl NodeTrait for Statement {
    open spec fn leading_literal(&self) -> Seq<char> {
        self@.token().literal
    }

    fn token_literal(&self) -> (literal: String) {
        match self {
            Statement::LetStatement(x) => x.token_literal(),
            Statement::ExpressionStatement(x) => x.token.literal.clone(),
        }
    }
}

impl NodeTrait for Program {
    open spec fn leading_literal(&self) -> Seq<char> {
        if self@.len() > 0 {
            self@[0].token().literal
        } else {
            Seq::empty()
        }
    }

    fn token_literal(&self) -> (literal: String) {
        if self.statements.len() > 0 {
            self.statements[0].token_literal()
        } else {
            String::new()
        }
    }
}

impl NodeTrait for Node {
    open spec fn leading_literal(&self) -> Seq<char> {
        match self {
            Node::Program(program) => program.leading_literal(),
            Node::Statement(statement) => statement.leading_literal(),
            Node::Expression(expression) => expression.leading_literal(),
        }
    }

    fn token_literal(&self) -> (literal: String) {
        match self {
            Node::Program(program) => program.token_literal(),
            Node::Statement(statement) => statement.token_literal(),
            Node::Expression(expression) => expression.token_literal(),
        }
    }
}

} // verus!
