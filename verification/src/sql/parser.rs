//! The parser: recursive descent over the token sequence, one statement
//! per call, aborting at the first structural mismatch.  The grammar
//! functions `parse_*_spec` are the specification; each method of
//! `Parser` computes exactly what its spec function says.

use crate::sql::ast::Expr;
use crate::sql::ast::ExprV;
use crate::sql::ast::InsertStatement;
use crate::sql::ast::InsertStatementV;
use crate::sql::ast::Literal;
use crate::sql::ast::LiteralV;
use crate::sql::ast::SelectStatement;
use crate::sql::ast::SelectStatementV;
use crate::sql::ast::Statement;
use crate::sql::ast::StatementV;
use crate::sql::ast::ASTNode;
use crate::sql::ast::ASTRootWrapper;
use crate::sql::Operator;
use crate::sql::SqlKeyword;
use crate::sql::SqlToken;
use crate::sql::TokenV;
use crate::strutil::parse_i32_val;
use crate::strutil::parse_i32_chars;
use crate::strutil::str_to_chars;
use vstd::prelude::*;

verus! {

/// What the parser was looking for when it stopped.
#[derive(Debug)]
pub enum Expectation {
    /// One specific token.
    Token(SqlToken),
    Identifier,
    Expression,
    Statement,
    /// A number literal that fits a 32-bit signed integer.
    Number,
}

/// The mathematical value of an expectation.
pub enum ExpectationV {
    Token(TokenV),
    Identifier,
    Expression,
    Statement,
    Number,
}

/// A parse failure: what was expected and the token actually found.
#[derive(Debug)]
pub struct ParseError {
    pub expected: Expectation,
    pub found: SqlToken,
}

/// The mathematical value of a parse error.
pub struct ParseErrorV {
    pub expected: ExpectationV,
    pub found: TokenV,
}

impl DeepView for Expectation {
    type V = ExpectationV;

    open spec fn deep_view(&self) -> ExpectationV {
        match self {
            Expectation::Token(t) => ExpectationV::Token(t@),
            Expectation::Identifier => ExpectationV::Identifier,
            Expectation::Expression => ExpectationV::Expression,
            Expectation::Statement => ExpectationV::Statement,
            Expectation::Number => ExpectationV::Number,
        }
    }
}

impl DeepView for ParseError {
    type V = ParseErrorV;

    open spec fn deep_view(&self) -> ParseErrorV {
        ParseErrorV { expected: self.expected.deep_view(), found: self.found@ }
    }
}

impl View for ParseError {
    type V = ParseErrorV;

    open spec fn view(&self) -> ParseErrorV {
        self.deep_view()
    }
}

/// A token sequence the parser can run on: nonempty and ending with the
/// `EOF` sentinel, as the lexer always leaves it.
pub open spec fn toks_wf(toks: Seq<TokenV>) -> bool {
    toks.len() >= 1 && toks.last() == TokenV::EOF
}

// ---------------------------------------------------------------------------
// The grammar, as spec functions over (tokens, position)
// ---------------------------------------------------------------------------

/// `primary := string_literal | number_literal | identifier`
pub open spec fn parse_primary_spec(toks: Seq<TokenV>, p: int) -> Result<
    (ExprV, int),
    ParseErrorV,
> {
    match toks[p] {
        TokenV::StringLiteral(s) => Ok((ExprV::Literal(LiteralV::String(s)), p + 1)),
        TokenV::NumberLiteral(d) => match parse_i32_val(d) {
            Some(v) => Ok((ExprV::Literal(LiteralV::Number(v)), p + 1)),
            None => Err(ParseErrorV { expected: ExpectationV::Number, found: toks[p] }),
        },
        TokenV::Identifier(nm) => Ok((ExprV::Identifier(nm), p + 1)),
        _ => Err(ParseErrorV { expected: ExpectationV::Expression, found: toks[p] }),
    }
}

/// Whether an operator may stand between two primaries.
pub open spec fn is_comparison_op(op: Operator) -> bool {
    match op {
        Operator::Equal | Operator::NotEqual | Operator::Greater | Operator::Smaller => true,
        _ => false,
    }
}

/// `comparison := primary ((= | != | > | <) primary)?`
pub open spec fn parse_comparison_spec(toks: Seq<TokenV>, p: int) -> Result<
    (ExprV, int),
    ParseErrorV,
> {
    match parse_primary_spec(toks, p) {
        Err(e) => Err(e),
        Ok((left, p1)) => match toks[p1] {
            TokenV::Operator(op) => if is_comparison_op(op) {
                match parse_primary_spec(toks, p1 + 1) {
                    Err(e) => Err(e),
                    Ok((right, p2)) => Ok(
                        (
                            ExprV::Binary { left: Box::new(left), op, right: Box::new(right) },
                            p2,
                        ),
                    ),
                }
            } else {
                Ok((left, p1))
            },
            _ => Ok((left, p1)),
        },
    }
}

/// The `AND`/`OR` combination a keyword token introduces inside an
/// expression, if any.
pub open spec fn expr_op_of(t: TokenV) -> Option<Operator> {
    match t {
        TokenV::Keyword(SqlKeyword::And) => Some(Operator::And),
        TokenV::Keyword(SqlKeyword::Or) => Some(Operator::Or),
        _ => None,
    }
}

/// The left-associative `(AND|OR) comparison` tail of an expression.
pub open spec fn parse_expr_tail_spec(toks: Seq<TokenV>, left: ExprV, p: int) -> Result<
    (ExprV, int),
    ParseErrorV,
>
    decreases toks.len() - p when 0 <= p <= toks.len()
{
    match expr_op_of(toks[p]) {
        None => Ok((left, p)),
        Some(op) => match parse_comparison_spec(toks, p + 1) {
            Err(e) => Err(e),
            Ok((right, p2)) => {
                let combined = ExprV::Binary {
                    left: Box::new(left),
                    op,
                    right: Box::new(right),
                };
                if p < p2 <= toks.len() {
                    parse_expr_tail_spec(toks, combined, p2)
                } else {
                    // a comparison always advances; this branch is unreachable
                    Ok((combined, p2))
                }
            },
        },
    }
}

/// `expr := comparison ((AND|OR) comparison)*`, left-associative.
pub open spec fn parse_expr_spec(toks: Seq<TokenV>, p: int) -> Result<(ExprV, int), ParseErrorV> {
    match parse_comparison_spec(toks, p) {
        Err(e) => Err(e),
        Ok((left, p1)) => parse_expr_tail_spec(toks, left, p1),
    }
}

/// `identifier`
pub open spec fn parse_identifier_spec(toks: Seq<TokenV>, p: int) -> Result<
    (Seq<char>, int),
    ParseErrorV,
> {
    match toks[p] {
        TokenV::Identifier(nm) => Ok((nm, p + 1)),
        _ => Err(ParseErrorV { expected: ExpectationV::Identifier, found: toks[p] }),
    }
}

/// One specific token.
pub open spec fn expect_spec(toks: Seq<TokenV>, p: int, t: TokenV) -> Result<int, ParseErrorV> {
    if toks[p] == t {
        Ok(p + 1)
    } else {
        Err(ParseErrorV { expected: ExpectationV::Token(t), found: toks[p] })
    }
}

/// The `(COMMA identifier)*` tail of an identifier list.
pub open spec fn parse_ident_list_tail_spec(
    toks: Seq<TokenV>,
    acc: Seq<Seq<char>>,
    p: int,
) -> Result<(Seq<Seq<char>>, int), ParseErrorV>
    decreases toks.len() - p when 0 <= p <= toks.len()
{
    if toks[p] == TokenV::Comma {
        match parse_identifier_spec(toks, p + 1) {
            Err(e) => Err(e),
            Ok((nm, p2)) => {
                if p < p2 <= toks.len() {
                    parse_ident_list_tail_spec(toks, acc.push(nm), p2)
                } else {
                    // an identifier always advances; this branch is unreachable
                    Ok((acc.push(nm), p2))
                }
            },
        }
    } else {
        Ok((acc, p))
    }
}

/// `ident_list := identifier (COMMA identifier)*`
pub open spec fn parse_ident_list_spec(toks: Seq<TokenV>, p: int) -> Result<
    (Seq<Seq<char>>, int),
    ParseErrorV,
> {
    match parse_identifier_spec(toks, p) {
        Err(e) => Err(e),
        Ok((nm, p1)) => parse_ident_list_tail_spec(toks, seq![nm], p1),
    }
}

/// The `((WHERE | AND) expr)*` clauses after `FROM <table>`; each clause
/// joins the top-level conjunction.
pub open spec fn parse_where_list_spec(toks: Seq<TokenV>, acc: Seq<ExprV>, p: int) -> Result<
    (Seq<ExprV>, int),
    ParseErrorV,
>
    decreases toks.len() - p when 0 <= p <= toks.len()
{
    if toks[p] == TokenV::Keyword(SqlKeyword::Where) || toks[p] == TokenV::Keyword(
        SqlKeyword::And,
    ) {
        match parse_expr_spec(toks, p + 1) {
            Err(e) => Err(e),
            Ok((w, p2)) => {
                if p < p2 <= toks.len() {
                    parse_where_list_spec(toks, acc.push(w), p2)
                } else {
                    // an expression always advances; this branch is unreachable
                    Ok((acc.push(w), p2))
                }
            },
        }
    } else {
        Ok((acc, p))
    }
}

/// `select := SELECT ident_list FROM identifier ((WHERE|AND) expr)*`
pub open spec fn parse_select_spec(toks: Seq<TokenV>, p: int) -> Result<
    (SelectStatementV, int),
    ParseErrorV,
> {
    match expect_spec(toks, p, TokenV::Keyword(SqlKeyword::Select)) {
        Err(e) => Err(e),
        Ok(p1) => match parse_ident_list_spec(toks, p1) {
            Err(e) => Err(e),
            Ok((cols, p2)) => match expect_spec(toks, p2, TokenV::Keyword(SqlKeyword::From)) {
                Err(e) => Err(e),
                Ok(p3) => match parse_identifier_spec(toks, p3) {
                    Err(e) => Err(e),
                    Ok((tbl, p4)) => match parse_where_list_spec(toks, Seq::empty(), p4) {
                        Err(e) => Err(e),
                        Ok((ws, p5)) => Ok(
                            (
                                SelectStatementV {
                                    columns: cols,
                                    table: tbl,
                                    where_clause: if ws.len() == 0 {
                                        None
                                    } else {
                                        Some(ws)
                                    },
                                },
                                p5,
                            ),
                        ),
                    },
                },
            },
        },
    }
}

/// The `expr ((COMMA)? expr)*` list between the parentheses of `VALUES`,
/// ending at the closing parenthesis; the comma between values is
/// optional.
pub open spec fn parse_values_list_spec(toks: Seq<TokenV>, acc: Seq<ExprV>, p: int) -> Result<
    (Seq<ExprV>, int),
    ParseErrorV,
>
    decreases toks.len() - p when 0 <= p <= toks.len()
{
    if toks[p] == TokenV::RightParen {
        Ok((acc, p))
    } else {
        match parse_expr_spec(toks, p) {
            Err(e) => Err(e),
            Ok((v, p2)) => {
                let p3: int = if toks[p2] == TokenV::Comma {
                    p2 + 1
                } else {
                    p2
                };
                if p < p3 <= toks.len() {
                    parse_values_list_spec(toks, acc.push(v), p3)
                } else {
                    // an expression always advances; this branch is unreachable
                    Ok((acc.push(v), p3))
                }
            },
        }
    }
}

/// `insert := INSERT INTO identifier LPAREN ident_list RPAREN VALUES
/// LPAREN expr_list RPAREN`
pub open spec fn parse_insert_spec(toks: Seq<TokenV>, p: int) -> Result<
    (InsertStatementV, int),
    ParseErrorV,
> {
    match expect_spec(toks, p, TokenV::Keyword(SqlKeyword::Insert)) {
        Err(e) => Err(e),
        Ok(p1) => match expect_spec(toks, p1, TokenV::Keyword(SqlKeyword::Into)) {
            Err(e) => Err(e),
            Ok(p2) => match parse_identifier_spec(toks, p2) {
                Err(e) => Err(e),
                Ok((tbl, p3)) => match expect_spec(toks, p3, TokenV::LeftParen) {
                    Err(e) => Err(e),
                    Ok(p4) => match parse_ident_list_spec(toks, p4) {
                        Err(e) => Err(e),
                        Ok((cols, p5)) => match expect_spec(toks, p5, TokenV::RightParen) {
                            Err(e) => Err(e),
                            Ok(p6) => match expect_spec(
                                toks,
                                p6,
                                TokenV::Keyword(SqlKeyword::Values),
                            ) {
                                Err(e) => Err(e),
                                Ok(p7) => match expect_spec(toks, p7, TokenV::LeftParen) {
                                    Err(e) => Err(e),
                                    Ok(p8) => match parse_values_list_spec(
                                        toks,
                                        Seq::empty(),
                                        p8,
                                    ) {
                                        Err(e) => Err(e),
                                        Ok((vals, p9)) => match expect_spec(
                                            toks,
                                            p9,
                                            TokenV::RightParen,
                                        ) {
                                            Err(e) => Err(e),
                                            Ok(p10) => Ok(
                                                (
                                                    InsertStatementV {
                                                        table: tbl,
                                                        columns: Some(cols),
                                                        values: vals,
                                                    },
                                                    p10,
                                                ),
                                            ),
                                        },
                                    },
                                },
                            },
                        },
                    },
                },
            },
        },
    }
}

/// `statement := select | insert`
pub open spec fn parse_statement_spec(toks: Seq<TokenV>, p: int) -> Result<
    (StatementV, int),
    ParseErrorV,
> {
    match toks[p] {
        TokenV::Keyword(SqlKeyword::Select) => match parse_select_spec(toks, p) {
            Err(e) => Err(e),
            Ok((s, q)) => Ok((StatementV::Select(s), q)),
        },
        TokenV::Keyword(SqlKeyword::Insert) => match parse_insert_spec(toks, p) {
            Err(e) => Err(e),
            Ok((s, q)) => Ok((StatementV::Insert(s), q)),
        },
        _ => Err(ParseErrorV { expected: ExpectationV::Statement, found: toks[p] }),
    }
}

// ---------------------------------------------------------------------------
// Progress: a successful parse always advances and never leaves the tokens
// ---------------------------------------------------------------------------

pub proof fn lemma_primary_ok(toks: Seq<TokenV>, p: int)
    requires
        toks_wf(toks),
        0 <= p < toks.len(),
    ensures
        match parse_primary_spec(toks, p) {
            Ok((e, q)) => q == p + 1 && q < toks.len(),
            Err(_) => true,
        },
{
    if parse_primary_spec(toks, p) is Ok {
        assert(toks[p] != TokenV::EOF);
        assert(p != toks.len() - 1);
    }
}

pub proof fn lemma_comparison_ok(toks: Seq<TokenV>, p: int)
    requires
        toks_wf(toks),
        0 <= p < toks.len(),
    ensures
        match parse_comparison_spec(toks, p) {
            Ok((e, q)) => p < q < toks.len(),
            Err(_) => true,
        },
{
    lemma_primary_ok(toks, p);
    match parse_primary_spec(toks, p) {
        Ok((left, p1)) => {
            match toks[p1] {
                TokenV::Operator(op) => {
                    if is_comparison_op(op) {
                        assert(toks[p1] != TokenV::EOF);
                        assert(p1 != toks.len() - 1);
                        lemma_primary_ok(toks, p1 + 1);
                    }
                },
                _ => {},
            }
        },
        Err(_) => {},
    }
}

pub proof fn lemma_expr_tail_ok(toks: Seq<TokenV>, left: ExprV, p: int)
    requires
        toks_wf(toks),
        0 <= p < toks.len(),
    ensures
        match parse_expr_tail_spec(toks, left, p) {
            Ok((e, q)) => p <= q < toks.len(),
            Err(_) => true,
        },
    decreases toks.len() - p,
{
    match expr_op_of(toks[p]) {
        None => {},
        Some(op) => {
            assert(toks[p] != TokenV::EOF);
            assert(p != toks.len() - 1);
            lemma_comparison_ok(toks, p + 1);
            match parse_comparison_spec(toks, p + 1) {
                Ok((right, p2)) => {
                    let combined = ExprV::Binary {
                        left: Box::new(left),
                        op,
                        right: Box::new(right),
                    };
                    lemma_expr_tail_ok(toks, combined, p2);
                },
                Err(_) => {},
            }
        },
    }
}

pub proof fn lemma_expr_ok(toks: Seq<TokenV>, p: int)
    requires
        toks_wf(toks),
        0 <= p < toks.len(),
    ensures
        match parse_expr_spec(toks, p) {
            Ok((e, q)) => p < q < toks.len(),
            Err(_) => true,
        },
{
    lemma_comparison_ok(toks, p);
    match parse_comparison_spec(toks, p) {
        Ok((left, p1)) => {
            lemma_expr_tail_ok(toks, left, p1);
        },
        Err(_) => {},
    }
}

pub proof fn lemma_ident_list_tail_ok(toks: Seq<TokenV>, acc: Seq<Seq<char>>, p: int)
    requires
        toks_wf(toks),
        0 <= p < toks.len(),
    ensures
        match parse_ident_list_tail_spec(toks, acc, p) {
            Ok((ns, q)) => p <= q < toks.len(),
            Err(_) => true,
        },
    decreases toks.len() - p,
{
    if toks[p] == TokenV::Comma {
        assert(toks[p] != TokenV::EOF);
        assert(p != toks.len() - 1);
        match parse_identifier_spec(toks, p + 1) {
            Ok((nm, p2)) => {
                assert(toks[p + 1] != TokenV::EOF);
                assert(p + 1 != toks.len() - 1);
                lemma_ident_list_tail_ok(toks, acc.push(nm), p2);
            },
            Err(_) => {},
        }
    }
}

pub proof fn lemma_ident_list_ok(toks: Seq<TokenV>, p: int)
    requires
        toks_wf(toks),
        0 <= p < toks.len(),
    ensures
        match parse_ident_list_spec(toks, p) {
            Ok((ns, q)) => p < q < toks.len(),
            Err(_) => true,
        },
{
    match parse_identifier_spec(toks, p) {
        Ok((nm, p1)) => {
            assert(toks[p] != TokenV::EOF);
            assert(p != toks.len() - 1);
            lemma_ident_list_tail_ok(toks, seq![nm], p1);
        },
        Err(_) => {},
    }
}

pub proof fn lemma_where_list_ok(toks: Seq<TokenV>, acc: Seq<ExprV>, p: int)
    requires
        toks_wf(toks),
        0 <= p < toks.len(),
    ensures
        match parse_where_list_spec(toks, acc, p) {
            Ok((ws, q)) => p <= q < toks.len(),
            Err(_) => true,
        },
    decreases toks.len() - p,
{
    if toks[p] == TokenV::Keyword(SqlKeyword::Where) || toks[p] == TokenV::Keyword(
        SqlKeyword::And,
    ) {
        assert(toks[p] != TokenV::EOF);
        assert(p != toks.len() - 1);
        lemma_expr_ok(toks, p + 1);
        match parse_expr_spec(toks, p + 1) {
            Ok((w, p2)) => {
                lemma_where_list_ok(toks, acc.push(w), p2);
            },
            Err(_) => {},
        }
    }
}

pub proof fn lemma_values_list_ok(toks: Seq<TokenV>, acc: Seq<ExprV>, p: int)
    requires
        toks_wf(toks),
        0 <= p < toks.len(),
    ensures
        match parse_values_list_spec(toks, acc, p) {
            Ok((vs, q)) => p <= q < toks.len(),
            Err(_) => true,
        },
    decreases toks.len() - p,
{
    if toks[p] != TokenV::RightParen {
        lemma_expr_ok(toks, p);
        match parse_expr_spec(toks, p) {
            Ok((v, p2)) => {
                if toks[p2] == TokenV::Comma {
                    assert(toks[p2] != TokenV::EOF);
                    assert(p2 != toks.len() - 1);
                    lemma_values_list_ok(toks, acc.push(v), p2 + 1);
                } else {
                    lemma_values_list_ok(toks, acc.push(v), p2);
                }
            },
            Err(_) => {},
        }
    }
}

// ---------------------------------------------------------------------------
// The executable parser
// ---------------------------------------------------------------------------

/// Walks a token sequence left to right, never past the `EOF` sentinel.
#[derive(Debug)]
pub struct Parser {
    pub tokens: Vec<SqlToken>,
    pub pos: usize,
}

impl Parser {
    /// The token values this parser walks.
    pub open spec fn toks(self) -> Seq<TokenV> {
        self.tokens.deep_view()
    }

    /// The parser is inside a lexer-produced sequence.
    pub open spec fn wf(self) -> bool {
        toks_wf(self.toks()) && self.pos < self.tokens.len()
    }

    pub fn new(vec: Vec<SqlToken>) -> (p: Parser)
        ensures
            p.toks() == vec.deep_view(),
            p.pos == 0,
    {
        Parser { tokens: vec, pos: 0 }
    }

    fn current(&self) -> (t: &SqlToken)
        requires
            self.wf(),
        ensures
            t@ == self.toks()[self.pos as int],
    {
        &self.tokens[self.pos]
    }

    fn advance(&mut self)
        requires
            old(self).wf(),
            old(self).pos + 1 < old(self).tokens.len(),
        ensures
            final(self).tokens == old(self).tokens,
            final(self).pos == old(self).pos + 1,
            final(self).wf(),
    {
        self.pos = self.pos + 1;
    }

    fn parse_primary(&mut self) -> (r: Result<Expr, ParseError>)
        requires
            old(self).wf(),
        ensures
            final(self).wf(),
            final(self).tokens == old(self).tokens,
            match r {
                Ok(e) => parse_primary_spec(old(self).toks(), old(self).pos as int) == Ok::<
                    (ExprV, int),
                    ParseErrorV,
                >((e.deep_view(), final(self).pos as int)),
                Err(pe) => parse_primary_spec(old(self).toks(), old(self).pos as int) == Err::<
                    (ExprV, int),
                    ParseErrorV,
                >(pe.deep_view()),
            },
    {
        proof {
            lemma_primary_ok(self.toks(), self.pos as int);
        }
        match self.current() {
            SqlToken::StringLiteral(s) => {
                let e = Expr::Literal(Literal::String(s.clone()));
                self.advance();
                Ok(e)
            },
            SqlToken::NumberLiteral(d) => {
                let chars = str_to_chars(d.as_str());
                match parse_i32_chars(chars.as_slice()) {
                    Some(v) => {
                        self.advance();
                        Ok(Expr::Literal(Literal::Number(v)))
                    },
                    None => Err(
                        ParseError { expected: Expectation::Number, found: self.current().clone() },
                    ),
                }
            },
            SqlToken::Identifier(nm) => {
                let e = Expr::Identifier(nm.clone());
                self.advance();
                Ok(e)
            },
            _ => Err(
                ParseError { expected: Expectation::Expression, found: self.current().clone() },
            ),
        }
    }

    fn parse_comparison(&mut self) -> (r: Result<Expr, ParseError>)
        requires
            old(self).wf(),
        ensures
            final(self).wf(),
            final(self).tokens == old(self).tokens,
            match r {
                Ok(e) => parse_comparison_spec(old(self).toks(), old(self).pos as int) == Ok::<
                    (ExprV, int),
                    ParseErrorV,
                >((e.deep_view(), final(self).pos as int)),
                Err(pe) => parse_comparison_spec(old(self).toks(), old(self).pos as int) == Err::<
                    (ExprV, int),
                    ParseErrorV,
                >(pe.deep_view()),
            },
    {
        proof {
            lemma_primary_ok(self.toks(), self.pos as int);
        }
        let left = match self.parse_primary() {
            Ok(e) => e,
            Err(pe) => {
                return Err(pe);
            },
        };
        let op: Operator = match self.current() {
            SqlToken::Operator(op) => *op,
            _ => {
                return Ok(left);
            },
        };
        let cmp = match op {
            Operator::Equal | Operator::NotEqual | Operator::Greater | Operator::Smaller => true,
            _ => false,
        };
        if !cmp {
            return Ok(left);
        }
        proof {
            assert(self.toks()[self.pos as int] != TokenV::EOF);
            assert(self.pos != self.tokens.len() - 1);
        }
        self.advance();
        match self.parse_primary() {
            Ok(right) => Ok(Expr::Binary { left: Box::new(left), op, right: Box::new(right) }),
            Err(pe) => Err(pe),
        }
    }

    fn parse_expr(&mut self) -> (r: Result<Expr, ParseError>)
        requires
            old(self).wf(),
        ensures
            final(self).wf(),
            final(self).tokens == old(self).tokens,
            match r {
                Ok(e) => parse_expr_spec(old(self).toks(), old(self).pos as int) == Ok::<
                    (ExprV, int),
                    ParseErrorV,
                >((e.deep_view(), final(self).pos as int)),
                Err(pe) => parse_expr_spec(old(self).toks(), old(self).pos as int) == Err::<
                    (ExprV, int),
                    ParseErrorV,
                >(pe.deep_view()),
            },
    {
        let ghost toks = self.toks();
        let ghost p0 = self.pos as int;
        let mut left = match self.parse_comparison() {
            Ok(e) => e,
            Err(pe) => {
                return Err(pe);
            },
        };
        loop
            invariant
                self.wf(),
                self.toks() == toks,
                self.tokens == old(self).tokens,
                parse_expr_spec(toks, p0) == parse_expr_tail_spec(
                    toks,
                    left.deep_view(),
                    self.pos as int,
                ),
            decreases toks.len() - self.pos,
        {
            let op: Operator = match self.current() {
                SqlToken::Keyword(SqlKeyword::And) => Operator::And,
                SqlToken::Keyword(SqlKeyword::Or) => Operator::Or,
                _ => {
                    proof {
                        assert(expr_op_of(toks[self.pos as int]) is None);
                    }
                    return Ok(left);
                },
            };
            proof {
                assert(expr_op_of(toks[self.pos as int]) == Some(op));
                assert(toks[self.pos as int] != TokenV::EOF);
                assert(self.pos != self.tokens.len() - 1);
                lemma_comparison_ok(toks, self.pos + 1);
            }
            let ghost p_op = self.pos as int;
            self.advance();
            let right = match self.parse_comparison() {
                Ok(e) => e,
                Err(pe) => {
                    return Err(pe);
                },
            };
            left = Expr::Binary { left: Box::new(left), op, right: Box::new(right) };
        }
    }

    fn parse_identifier(&mut self) -> (r: Result<String, ParseError>)
        requires
            old(self).wf(),
        ensures
            final(self).wf(),
            final(self).tokens == old(self).tokens,
            match r {
                Ok(nm) => parse_identifier_spec(old(self).toks(), old(self).pos as int) == Ok::<
                    (Seq<char>, int),
                    ParseErrorV,
                >((nm@, final(self).pos as int)),
                Err(pe) => parse_identifier_spec(old(self).toks(), old(self).pos as int) == Err::<
                    (Seq<char>, int),
                    ParseErrorV,
                >(pe.deep_view()),
            },
    {
        match self.current() {
            SqlToken::Identifier(nm) => {
                let name = nm.clone();
                proof {
                    assert(self.toks()[self.pos as int] != TokenV::EOF);
                    assert(self.pos != self.tokens.len() - 1);
                }
                self.advance();
                Ok(name)
            },
            _ => Err(
                ParseError { expected: Expectation::Identifier, found: self.current().clone() },
            ),
        }
    }

    fn expect(&mut self, expected: SqlToken) -> (r: Result<(), ParseError>)
        requires
            old(self).wf(),
            expected@ != TokenV::EOF,
        ensures
            final(self).wf(),
            final(self).tokens == old(self).tokens,
            match r {
                Ok(_) => expect_spec(old(self).toks(), old(self).pos as int, expected@) == Ok::<
                    int,
                    ParseErrorV,
                >(final(self).pos as int),
                Err(pe) => expect_spec(old(self).toks(), old(self).pos as int, expected@) == Err::<
                    int,
                    ParseErrorV,
                >(pe.deep_view()),
            },
    {
        if *self.current() == expected {
            proof {
                assert(self.toks()[self.pos as int] != TokenV::EOF);
                assert(self.pos != self.tokens.len() - 1);
            }
            self.advance();
            Ok(())
        } else {
            Err(ParseError { expected: Expectation::Token(expected), found: self.current().clone() })
        }
    }

    /// Parses `identifier (COMMA identifier)*`.
    fn parse_comma_separated(&mut self) -> (r: Result<Vec<String>, ParseError>)
        requires
            old(self).wf(),
        ensures
            final(self).wf(),
            final(self).tokens == old(self).tokens,
            match r {
                Ok(ns) => parse_ident_list_spec(old(self).toks(), old(self).pos as int) == Ok::<
                    (Seq<Seq<char>>, int),
                    ParseErrorV,
                >((ns.deep_view(), final(self).pos as int)),
                Err(pe) => parse_ident_list_spec(old(self).toks(), old(self).pos as int) == Err::<
                    (Seq<Seq<char>>, int),
                    ParseErrorV,
                >(pe.deep_view()),
            },
    {
        let ghost toks = self.toks();
        let ghost p0 = self.pos as int;
        let first = match self.parse_identifier() {
            Ok(nm) => nm,
            Err(pe) => {
                return Err(pe);
            },
        };
        let mut items: Vec<String> = Vec::new();
        let ghost first_v = first@;
        items.push(first);
        proof {
            assert(items.deep_view() =~= seq![first_v]);
        }
        loop
            invariant
                self.wf(),
                self.toks() == toks,
                self.tokens == old(self).tokens,
                parse_ident_list_spec(toks, p0) == parse_ident_list_tail_spec(
                    toks,
                    items.deep_view(),
                    self.pos as int,
                ),
            decreases toks.len() - self.pos,
        {
            match self.current() {
                SqlToken::Comma => {},
                _ => {
                    proof {
                        assert(toks[self.pos as int] != TokenV::Comma);
                    }
                    return Ok(items);
                },
            }
            proof {
                assert(toks[self.pos as int] == TokenV::Comma);
                assert(toks[self.pos as int] != TokenV::EOF);
                assert(self.pos != self.tokens.len() - 1);
            }
            self.advance();
            let nm = match self.parse_identifier() {
                Ok(nm) => nm,
                Err(pe) => {
                    return Err(pe);
                },
            };
            let ghost items0 = items.deep_view();
            let ghost nm_v = nm@;
            items.push(nm);
            proof {
                assert(items.deep_view() =~~= items0.push(nm_v));
            }
        }
    }

    fn parse_select(&mut self) -> (r: Result<SelectStatement, ParseError>)
        requires
            old(self).wf(),
        ensures
            final(self).wf(),
            final(self).tokens == old(self).tokens,
            match r {
                Ok(s) => parse_select_spec(old(self).toks(), old(self).pos as int) == Ok::<
                    (SelectStatementV, int),
                    ParseErrorV,
                >((s.deep_view(), final(self).pos as int)),
                Err(pe) => parse_select_spec(old(self).toks(), old(self).pos as int) == Err::<
                    (SelectStatementV, int),
                    ParseErrorV,
                >(pe.deep_view()),
            },
    {
        let ghost toks = self.toks();
        let ghost p0 = self.pos as int;
        match self.expect(SqlToken::Keyword(SqlKeyword::Select)) {
            Ok(_) => {},
            Err(pe) => {
                return Err(pe);
            },
        }
        let columns = match self.parse_comma_separated() {
            Ok(ns) => ns,
            Err(pe) => {
                return Err(pe);
            },
        };
        match self.expect(SqlToken::Keyword(SqlKeyword::From)) {
            Ok(_) => {},
            Err(pe) => {
                return Err(pe);
            },
        }
        let table = match self.parse_identifier() {
            Ok(nm) => nm,
            Err(pe) => {
                return Err(pe);
            },
        };
        let mut where_clauses: Vec<Expr> = Vec::new();
        proof {
            assert(where_clauses.deep_view() =~= Seq::<ExprV>::empty());
        }
        loop
            invariant
                self.wf(),
                self.toks() == toks,
                self.tokens == old(self).tokens,
                parse_select_spec(toks, p0) == (match parse_where_list_spec(
                    toks,
                    where_clauses.deep_view(),
                    self.pos as int,
                ) {
                    Err(e) => Err::<(SelectStatementV, int), ParseErrorV>(e),
                    Ok((ws, p5)) => Ok(
                        (
                            SelectStatementV {
                                columns: columns.deep_view(),
                                table: table@,
                                where_clause: if ws.len() == 0 {
                                    None
                                } else {
                                    Some(ws)
                                },
                            },
                            p5,
                        ),
                    ),
                }),
            decreases toks.len() - self.pos,
        {
            let intro = match self.current() {
                SqlToken::Keyword(SqlKeyword::Where) => true,
                SqlToken::Keyword(SqlKeyword::And) => true,
                _ => false,
            };
            if !intro {
                let ws: Option<Vec<Expr>> = if where_clauses.len() < 1 {
                    None
                } else {
                    Some(where_clauses)
                };
                let stmt = SelectStatement { columns, table, where_clause: ws };
                return Ok(stmt);
            }
            proof {
                assert(toks[self.pos as int] != TokenV::EOF);
                assert(self.pos != self.tokens.len() - 1);
                lemma_expr_ok(toks, self.pos + 1);
            }
            self.advance();
            let w = match self.parse_expr() {
                Ok(e) => e,
                Err(pe) => {
                    return Err(pe);
                },
            };
            let ghost ws0 = where_clauses.deep_view();
            let ghost w_v = w.deep_view();
            where_clauses.push(w);
            proof {
                assert(where_clauses.deep_view() =~~= ws0.push(w_v));
            }
        }
    }

    pub fn parse_insert(&mut self) -> (r: Result<InsertStatement, ParseError>)
        requires
            old(self).wf(),
        ensures
            final(self).wf(),
            final(self).tokens == old(self).tokens,
            match r {
                Ok(s) => parse_insert_spec(old(self).toks(), old(self).pos as int) == Ok::<
                    (InsertStatementV, int),
                    ParseErrorV,
                >((s.deep_view(), final(self).pos as int)),
                Err(pe) => parse_insert_spec(old(self).toks(), old(self).pos as int) == Err::<
                    (InsertStatementV, int),
                    ParseErrorV,
                >(pe.deep_view()),
            },
    {
        let ghost toks = self.toks();
        let ghost p0 = self.pos as int;
        match self.expect(SqlToken::Keyword(SqlKeyword::Insert)) {
            Ok(_) => {},
            Err(pe) => {
                return Err(pe);
            },
        }
        match self.expect(SqlToken::Keyword(SqlKeyword::Into)) {
            Ok(_) => {},
            Err(pe) => {
                return Err(pe);
            },
        }
        let table = match self.parse_identifier() {
            Ok(nm) => nm,
            Err(pe) => {
                return Err(pe);
            },
        };
        match self.expect(SqlToken::LeftParen) {
            Ok(_) => {},
            Err(pe) => {
                return Err(pe);
            },
        }
        let columns = match self.parse_comma_separated() {
            Ok(ns) => ns,
            Err(pe) => {
                return Err(pe);
            },
        };
        match self.expect(SqlToken::RightParen) {
            Ok(_) => {},
            Err(pe) => {
                return Err(pe);
            },
        }
        match self.expect(SqlToken::Keyword(SqlKeyword::Values)) {
            Ok(_) => {},
            Err(pe) => {
                return Err(pe);
            },
        }
        match self.expect(SqlToken::LeftParen) {
            Ok(_) => {},
            Err(pe) => {
                return Err(pe);
            },
        }
        let mut values: Vec<Expr> = Vec::new();
        proof {
            assert(values.deep_view() =~= Seq::<ExprV>::empty());
        }
        loop
            invariant
                self.wf(),
                self.toks() == toks,
                self.tokens == old(self).tokens,
                parse_insert_spec(toks, p0) == (match parse_values_list_spec(
                    toks,
                    values.deep_view(),
                    self.pos as int,
                ) {
                    Err(e) => Err::<(InsertStatementV, int), ParseErrorV>(e),
                    Ok((vals, p9)) => match expect_spec(toks, p9, TokenV::RightParen) {
                        Err(e) => Err::<(InsertStatementV, int), ParseErrorV>(e),
                        Ok(p10) => Ok(
                            (
                                InsertStatementV {
                                    table: table@,
                                    columns: Some(columns.deep_view()),
                                    values: vals,
                                },
                                p10,
                            ),
                        ),
                    },
                }),
            decreases toks.len() - self.pos,
        {
            let stop = match self.current() {
                SqlToken::RightParen => true,
                _ => false,
            };
            if stop {
                break;
            }
            proof {
                lemma_expr_ok(toks, self.pos as int);
            }
            let v = match self.parse_expr() {
                Ok(e) => e,
                Err(pe) => {
                    return Err(pe);
                },
            };
            let ghost vs0 = values.deep_view();
            let ghost v_v = v.deep_view();
            values.push(v);
            proof {
                assert(values.deep_view() =~~= vs0.push(v_v));
            }
            let comma = match self.current() {
                SqlToken::Comma => true,
                _ => false,
            };
            if comma {
                proof {
                    assert(toks[self.pos as int] != TokenV::EOF);
                    assert(self.pos != self.tokens.len() - 1);
                }
                self.advance();
            }
        }
        match self.expect(SqlToken::RightParen) {
            Ok(_) => {},
            Err(pe) => {
                return Err(pe);
            },
        }
        Ok(InsertStatement { table, columns: Some(columns), values })
    }

    pub fn parse_statement(&mut self) -> (r: Result<Statement, ParseError>)
        requires
            old(self).wf(),
        ensures
            final(self).wf(),
            final(self).tokens == old(self).tokens,
            match r {
                Ok(s) => parse_statement_spec(old(self).toks(), old(self).pos as int) == Ok::<
                    (StatementV, int),
                    ParseErrorV,
                >((s.deep_view(), final(self).pos as int)),
                Err(pe) => parse_statement_spec(old(self).toks(), old(self).pos as int) == Err::<
                    (StatementV, int),
                    ParseErrorV,
                >(pe.deep_view()),
            },
    {
        let is_select = match self.current() {
            SqlToken::Keyword(SqlKeyword::Select) => true,
            _ => false,
        };
        if is_select {
            return match self.parse_select() {
                Ok(s) => Ok(Statement::Select(s)),
                Err(pe) => Err(pe),
            };
        }
        let is_insert = match self.current() {
            SqlToken::Keyword(SqlKeyword::Insert) => true,
            _ => false,
        };
        if is_insert {
            return match self.parse_insert() {
                Ok(s) => Ok(Statement::Insert(s)),
                Err(pe) => Err(pe),
            };
        }
        Err(ParseError { expected: Expectation::Statement, found: self.current().clone() })
    }

    /// Parses one statement and wraps it as the root of the tree.
    pub fn generate_ast(&mut self) -> (r: Result<ASTRootWrapper, ParseError>)
        requires
            old(self).wf(),
        ensures
            final(self).wf(),
            final(self).tokens == old(self).tokens,
            match r {
                Ok(root) => parse_statement_spec(old(self).toks(), old(self).pos as int) matches
                    Ok((s, q)) && root.deep_view() == s && final(self).pos == q,
                Err(pe) => parse_statement_spec(old(self).toks(), old(self).pos as int) == Err::<
                    (StatementV, int),
                    ParseErrorV,
                >(pe.deep_view()),
            },
    {
        match self.parse_statement() {
            Ok(s) => Ok(ASTRootWrapper { first_node: ASTNode::Statement(s) }),
            Err(pe) => Err(pe),
        }
    }
}

} // verus!
