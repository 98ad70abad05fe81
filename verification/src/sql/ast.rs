//! The abstract syntax of a parsed statement: literals, expressions, and
//! the two statement forms.

use crate::sql::Operator;
use vstd::prelude::*;

verus! {

/// A literal value in a statement.
#[derive(Debug)]
pub enum Literal {
    String(String),
    Number(i32),
}

/// The mathematical value of a literal.
pub enum LiteralV {
    String(Seq<char>),
    Number(i32),
}

/// An expression of a `WHERE` clause or a `VALUES` list: a binary tree of
/// comparisons and `AND`/`OR` combinations over identifiers and literals.
#[derive(Debug)]
pub enum Expr {
    Binary { left: Box<Expr>, op: Operator, right: Box<Expr> },
    Identifier(String),
    Literal(Literal),
}

/// The mathematical value of an expression.
pub enum ExprV {
    Binary { left: Box<ExprV>, op: Operator, right: Box<ExprV> },
    Identifier(Seq<char>),
    Literal(LiteralV),
}

impl DeepView for Literal {
    type V = LiteralV;

    open spec fn deep_view(&self) -> LiteralV {
        match self {
            Literal::String(s) => LiteralV::String(s@),
            Literal::Number(n) => LiteralV::Number(*n),
        }
    }
}

impl View for Literal {
    type V = LiteralV;

    open spec fn view(&self) -> LiteralV {
        self.deep_view()
    }
}

impl DeepView for Expr {
    type V = ExprV;

    open spec fn deep_view(&self) -> ExprV
        decreases self,
    {
        match self {
            Expr::Binary { left, op, right } => ExprV::Binary {
                left: Box::new((**left).deep_view()),
                op: *op,
                right: Box::new((**right).deep_view()),
            },
            Expr::Identifier(s) => ExprV::Identifier(s@),
            Expr::Literal(l) => ExprV::Literal(l.deep_view()),
        }
    }
}

impl View for Expr {
    type V = ExprV;

    open spec fn view(&self) -> ExprV {
        self.deep_view()
    }
}

impl Clone for Literal {
    fn clone(&self) -> (r: Self)
        ensures
            r.deep_view() == self.deep_view(),
    {
        match self {
            Literal::String(s) => Literal::String(s.clone()),
            Literal::Number(n) => Literal::Number(*n),
        }
    }
}

impl Clone for Expr {
    fn clone(&self) -> (r: Self)
        ensures
            r.deep_view() == self.deep_view(),
        decreases self,
    {
        match self {
            Expr::Binary { left, op, right } => Expr::Binary {
                left: Box::new((**left).clone()),
                op: *op,
                right: Box::new((**right).clone()),
            },
            Expr::Identifier(s) => Expr::Identifier(s.clone()),
            Expr::Literal(l) => Expr::Literal(l.clone()),
        }
    }
}

/// An `INSERT INTO <table> (<columns>) VALUES (<exprs>)` statement.
#[derive(Debug)]
pub struct InsertStatement {
    pub table: String,
    pub columns: Option<Vec<String>>,
    pub values: Vec<Expr>,
}

/// The mathematical value of an insert statement.
pub struct InsertStatementV {
    pub table: Seq<char>,
    pub columns: Option<Seq<Seq<char>>>,
    pub values: Seq<ExprV>,
}

/// A `SELECT <columns> FROM <table> [WHERE ...]` statement; the where
/// clause is a top-level conjunction: every listed expression must hold.
#[derive(Debug)]
pub struct SelectStatement {
    pub columns: Vec<String>,
    pub table: String,
    pub where_clause: Option<Vec<Expr>>,
}

/// The mathematical value of a select statement.
pub struct SelectStatementV {
    pub columns: Seq<Seq<char>>,
    pub table: Seq<char>,
    pub where_clause: Option<Seq<ExprV>>,
}

/// A parsed top-level statement.
#[derive(Debug)]
pub enum Statement {
    Insert(InsertStatement),
    Select(SelectStatement),
}

/// The mathematical value of a statement.
pub enum StatementV {
    Insert(InsertStatementV),
    Select(SelectStatementV),
}

impl DeepView for InsertStatement {
    type V = InsertStatementV;

    open spec fn deep_view(&self) -> InsertStatementV {
        InsertStatementV {
            table: self.table@,
            columns: self.columns.deep_view(),
            values: self.values.deep_view(),
        }
    }
}

impl DeepView for SelectStatement {
    type V = SelectStatementV;

    open spec fn deep_view(&self) -> SelectStatementV {
        SelectStatementV {
            columns: self.columns.deep_view(),
            table: self.table@,
            where_clause: self.where_clause.deep_view(),
        }
    }
}

impl DeepView for Statement {
    type V = StatementV;

    open spec fn deep_view(&self) -> StatementV {
        match self {
            Statement::Insert(i) => StatementV::Insert(i.deep_view()),
            Statement::Select(s) => StatementV::Select(s.deep_view()),
        }
    }
}

/// The root of a parse: exactly one statement.
#[derive(Debug)]
pub enum ASTNode {
    Statement(Statement),
}

/// Wraps the first node of the tree, as the parser hands it out.
#[derive(Debug)]
pub struct ASTRootWrapper {
    pub first_node: ASTNode,
}

impl DeepView for ASTNode {
    type V = StatementV;

    open spec fn deep_view(&self) -> StatementV {
        match self {
            ASTNode::Statement(s) => s.deep_view(),
        }
    }
}

impl DeepView for ASTRootWrapper {
    type V = StatementV;

    open spec fn deep_view(&self) -> StatementV {
        self.first_node.deep_view()
    }
}

} // verus!
