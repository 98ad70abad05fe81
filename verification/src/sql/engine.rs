//! The query engine: evaluates expressions against a row and a header,
//! and dispatches a parsed statement to the table.

use crate::database::errors::DBError;
use crate::database::errors::DBErrorV;
use crate::database::table::find_col;
use crate::database::table::insert_spec;
use crate::database::table::select_cols_spec;
use crate::database::table::select_where_spec;
use crate::database::table::wf_table;
use crate::database::table::Table;
use crate::database::table::TableV;
use crate::database::ColumnV;
use crate::database::DBColumn;
use crate::database::DBField;
use crate::database::FieldV;
use crate::sql::ast::ASTRootWrapper;
use crate::sql::ast::Expr;
use crate::sql::ast::ExprV;
use crate::sql::ast::Literal;
use crate::sql::ast::LiteralV;
use crate::sql::ast::Statement;
use crate::sql::ast::StatementV;
use crate::sql::errors::EngineError;
use crate::sql::errors::EngineErrorV;
use crate::sql::Operator;
use vstd::prelude::*;

verus! {

/// What running a statement yields: projected rows for a select, nothing
/// for an insert.
#[derive(Debug)]
pub enum QueryResult {
    Rows(Vec<Vec<DBField>>),
    Empty,
}

/// The mathematical value of a query result.
pub enum QueryResultV {
    Rows(Seq<Seq<FieldV>>),
    Empty,
}

impl DeepView for QueryResult {
    type V = QueryResultV;

    open spec fn deep_view(&self) -> QueryResultV {
        match self {
            QueryResult::Rows(rows) => QueryResultV::Rows(rows.deep_view()),
            QueryResult::Empty => QueryResultV::Empty,
        }
    }
}

/// A query fails on the evaluator's side or on the storage side.
#[derive(Debug)]
pub enum QueryError {
    Engine(EngineError),
    Db(DBError),
}

/// The mathematical value of a query error.
pub enum QueryErrorV {
    Engine(EngineErrorV),
    Db(DBErrorV),
}

impl DeepView for QueryError {
    type V = QueryErrorV;

    open spec fn deep_view(&self) -> QueryErrorV {
        match self {
            QueryError::Engine(e) => QueryErrorV::Engine(e.deep_view()),
            QueryError::Db(e) => QueryErrorV::Db(e.deep_view()),
        }
    }
}

impl View for QueryError {
    type V = QueryErrorV;

    open spec fn view(&self) -> QueryErrorV {
        self.deep_view()
    }
}

/// The field a literal denotes.
pub open spec fn field_of_literal(l: LiteralV) -> FieldV {
    match l {
        LiteralV::String(s) => FieldV::Text(s),
        LiteralV::Number(n) => FieldV::Int(n as int),
    }
}

/// Reduces an operand of a comparison to a field: a literal directly, an
/// identifier by position in the row; anything else is an error.
pub open spec fn eval_value_spec(e: ExprV, row: Seq<FieldV>, header: Seq<ColumnV>) -> Result<
    FieldV,
    EngineErrorV,
> {
    match e {
        ExprV::Literal(l) => Ok(field_of_literal(l)),
        ExprV::Identifier(nm) => match find_col(header, nm) {
            Some(p) => if p < row.len() {
                Ok(row[p])
            } else {
                Err(EngineErrorV::UnexpectedState)
            },
            None => Err(EngineErrorV::UnexpectedState),
        },
        ExprV::Binary { left, op, right } => Err(EngineErrorV::UnexpectedExprExpectedLiteral(e)),
    }
}

/// Compares two fields: integers support all four comparison operators,
/// text only equality and inequality; anything else is an invalid
/// comparison.  There is no coercion between the types.
pub open spec fn compare_spec(l: FieldV, r: FieldV, op: Operator) -> Result<bool, EngineErrorV> {
    match (l, r) {
        (FieldV::Int(a), FieldV::Int(b)) => match op {
            Operator::Equal => Ok(a == b),
            Operator::NotEqual => Ok(a != b),
            Operator::Greater => Ok(a > b),
            Operator::Smaller => Ok(a < b),
            _ => Err(EngineErrorV::InvalidComparison),
        },
        (FieldV::Text(a), FieldV::Text(b)) => match op {
            Operator::Equal => Ok(a == b),
            Operator::NotEqual => Ok(a != b),
            _ => Err(EngineErrorV::InvalidComparison),
        },
        _ => Err(EngineErrorV::InvalidComparison),
    }
}

/// Evaluates a where-clause expression against one row: the expression
/// must be a binary node; `AND`/`OR` recurse into both sides, the
/// comparison operators reduce both operands and compare them.
pub open spec fn eval_expr_spec(e: ExprV, row: Seq<FieldV>, header: Seq<ColumnV>) -> Result<
    bool,
    EngineErrorV,
>
    decreases e,
{
    match e {
        ExprV::Binary { left, op, right } => match op {
            Operator::And | Operator::Or => match eval_expr_spec(*left, row, header) {
                Err(er) => Err(er),
                Ok(lv) => match eval_expr_spec(*right, row, header) {
                    Err(er) => Err(er),
                    Ok(rv) => Ok(
                        if op == Operator::And {
                            lv && rv
                        } else {
                            lv || rv
                        },
                    ),
                },
            },
            _ => match eval_value_spec(*left, row, header) {
                Err(er) => Err(er),
                Ok(lf) => match eval_value_spec(*right, row, header) {
                    Err(er) => Err(er),
                    Ok(rf) => compare_spec(lf, rf, op),
                },
            },
        },
        _ => Err(EngineErrorV::UnexpectedExprExpectedExpression(e)),
    }
}

/// The fields an insert's `VALUES` list denotes; any non-literal entry is
/// unsupported and fails.
pub open spec fn literals_to_fields(vs: Seq<ExprV>) -> Result<Seq<FieldV>, EngineErrorV>
    decreases vs.len(),
{
    if vs.len() == 0 {
        Ok(Seq::empty())
    } else {
        match literals_to_fields(vs.drop_last()) {
            Err(e) => Err(e),
            Ok(fs) => match vs.last() {
                ExprV::Literal(l) => Ok(fs.push(field_of_literal(l))),
                _ => Err(EngineErrorV::UnexpectedExprExpectedLiteral(vs.last())),
            },
        }
    }
}

/// What running a statement does: an insert converts its literal values
/// and appends a row through the table's insert; a select projects, with
/// its where clauses filtering when present.  The table changes only on a
/// successful insert.
pub open spec fn run_spec(st: StatementV, t: TableV) -> Result<
    (QueryResultV, TableV),
    QueryErrorV,
> {
    match st {
        StatementV::Insert(ins) => match literals_to_fields(ins.values) {
            Err(e) => Err(QueryErrorV::Engine(e)),
            Ok(fields) => match insert_spec(t, ins.columns, fields) {
                Err(e) => Err(QueryErrorV::Db(e)),
                Ok(t2) => Ok((QueryResultV::Empty, t2)),
            },
        },
        StatementV::Select(sel) => match sel.where_clause {
            None => match select_cols_spec(t, sel.columns) {
                Err(e) => Err(QueryErrorV::Db(e)),
                Ok(rows) => Ok((QueryResultV::Rows(rows), t)),
            },
            Some(ws) => match select_where_spec(t, sel.columns, ws) {
                Err(e) => Err(e),
                Ok(rows) => Ok((QueryResultV::Rows(rows), t)),
            },
        },
    }
}

/// Clones a list of column names.
pub(crate) fn clone_string_vec(v: &Vec<String>) -> (r: Vec<String>)
    ensures
        r.deep_view() == v.deep_view(),
{
    let mut r: Vec<String> = Vec::new();
    let mut i: usize = 0;
    while i < v.len()
        invariant
            i <= v.len(),
            r.len() == i,
            forall|k: int| 0 <= k < i ==> r.deep_view()[k] == v.deep_view()[k],
        decreases v.len() - i,
    {
        let ghost r0 = r.deep_view();
        r.push(v[i].clone());
        proof {
            assert forall|k: int| 0 <= k < i + 1 implies r.deep_view()[k] == v.deep_view()[k] by {
                if k < i {
                    assert(r.deep_view()[k] == r0[k]);
                }
            }
        }
        i = i + 1;
    }
    proof {
        assert(r.deep_view() =~= v.deep_view());
    }
    r
}

/// A stateless evaluator holding one parsed statement.
#[derive(Debug)]
pub struct Engine {
    pub ast_root: ASTRootWrapper,
}

impl Engine {
    /// Reduces an operand to a field value against a row and its header.
    pub fn eval_value(&self, e: &Expr, row: &Vec<DBField>, header: &Vec<DBColumn>) -> (r: Result<
        DBField,
        EngineError,
    >)
        ensures
            match r {
                Ok(f) => eval_value_spec(e.deep_view(), row.deep_view(), header.deep_view())
                    == Ok::<FieldV, EngineErrorV>(f@),
                Err(er) => eval_value_spec(e.deep_view(), row.deep_view(), header.deep_view())
                    == Err::<FieldV, EngineErrorV>(er.deep_view()),
            },
    {
        match e {
            Expr::Literal(l) => match l {
                Literal::String(s) => Ok(DBField::Text(s.clone())),
                Literal::Number(n) => Ok(DBField::Int(*n)),
            },
            Expr::Identifier(nm) => {
                match crate::database::table::find_col_exec(header, nm) {
                    Some(p) => {
                        if p < row.len() {
                            let f = row[p].clone();
                            proof {
                                assert(row.deep_view()[p as int] == row@[p as int].deep_view());
                            }
                            Ok(f)
                        } else {
                            Err(EngineError::UnexpectedState)
                        }
                    },
                    None => Err(EngineError::UnexpectedState),
                }
            },
            Expr::Binary { left, op, right } => {
                Err(EngineError::UnexpectedExprExpectedLiteral(e.clone()))
            },
        }
    }

    /// Compares two fields under a comparison operator.
    pub fn compare(&self, l: &DBField, r: &DBField, op: Operator) -> (res: Result<
        bool,
        EngineError,
    >)
        ensures
            match res {
                Ok(b) => compare_spec(l@, r@, op) == Ok::<bool, EngineErrorV>(b),
                Err(er) => compare_spec(l@, r@, op) == Err::<bool, EngineErrorV>(er.deep_view()),
            },
    {
        match (l, r) {
            (DBField::Int(a), DBField::Int(b)) => match op {
                Operator::Equal => Ok(*a == *b),
                Operator::NotEqual => Ok(*a != *b),
                Operator::Greater => Ok(*a > *b),
                Operator::Smaller => Ok(*a < *b),
                _ => Err(EngineError::InvalidComparison),
            },
            (DBField::Text(a), DBField::Text(b)) => match op {
                Operator::Equal => Ok(*a == *b),
                Operator::NotEqual => Ok(!(*a == *b)),
                _ => Err(EngineError::InvalidComparison),
            },
            _ => Err(EngineError::InvalidComparison),
        }
    }

    /// Evaluates one where-clause expression against a row.
    pub fn eval_expr(&self, e: &Expr, row: &Vec<DBField>, header: &Vec<DBColumn>) -> (r: Result<
        bool,
        EngineError,
    >)
        ensures
            match r {
                Ok(b) => eval_expr_spec(e.deep_view(), row.deep_view(), header.deep_view())
                    == Ok::<bool, EngineErrorV>(b),
                Err(er) => eval_expr_spec(e.deep_view(), row.deep_view(), header.deep_view())
                    == Err::<bool, EngineErrorV>(er.deep_view()),
            },
        decreases e,
    {
        match e {
            Expr::Binary { left, op, right } => {
                let is_logic = match op {
                    Operator::And | Operator::Or => true,
                    _ => false,
                };
                if is_logic {
                    let lv = match self.eval_expr(&**left, row, header) {
                        Ok(b) => b,
                        Err(er) => {
                            return Err(er);
                        },
                    };
                    let rv = match self.eval_expr(&**right, row, header) {
                        Ok(b) => b,
                        Err(er) => {
                            return Err(er);
                        },
                    };
                    let out = match op {
                        Operator::And => lv && rv,
                        _ => lv || rv,
                    };
                    Ok(out)
                } else {
                    let lf = match self.eval_value(&**left, row, header) {
                        Ok(f) => f,
                        Err(er) => {
                            return Err(er);
                        },
                    };
                    let rf = match self.eval_value(&**right, row, header) {
                        Ok(f) => f,
                        Err(er) => {
                            return Err(er);
                        },
                    };
                    self.compare(&lf, &rf, *op)
                }
            },
            _ => Err(EngineError::UnexpectedExprExpectedExpression(e.clone())),
        }
    }

    /// Runs the held statement against a table: converts and inserts for
    /// `INSERT`, projects (and filters) for `SELECT`.
    pub fn run(&self, table: &mut Table) -> (r: Result<QueryResult, QueryError>)
        requires
            wf_table(old(table)@),
        ensures
            wf_table(final(table)@),
            match r {
                Ok(qr) => run_spec(self.ast_root.deep_view(), old(table)@) == Ok::<
                    (QueryResultV, TableV),
                    QueryErrorV,
                >((qr.deep_view(), final(table)@)),
                Err(e) => run_spec(self.ast_root.deep_view(), old(table)@) == Err::<
                    (QueryResultV, TableV),
                    QueryErrorV,
                >(e.deep_view()) && final(table)@ == old(table)@,
            },
    {
        let ghost t0 = table@;
        match &self.ast_root.first_node {
            crate::sql::ast::ASTNode::Statement(st) => match st {
                Statement::Insert(ins) => {
                    let ghost vs = ins.values.deep_view();
                    let mut fields: Vec<DBField> = Vec::new();
                    let mut i: usize = 0;
                    proof {
                        assert(vs.take(0) =~= Seq::<ExprV>::empty());
                        assert(fields.deep_view() =~= Seq::<FieldV>::empty());
                    }
                    while i < ins.values.len()
                        invariant
                            i <= ins.values.len(),
                            vs == ins.values.deep_view(),
                            vs.len() == ins.values.len(),
                            literals_to_fields(vs.take(i as int)) == Ok::<Seq<FieldV>, EngineErrorV>(
                                fields.deep_view(),
                            ),
                        decreases ins.values.len() - i,
                    {
                        proof {
                            assert(vs.take(i + 1).drop_last() =~= vs.take(i as int));
                            assert(vs.take(i + 1).last() == vs[i as int]);
                        }
                        let f: DBField = match &ins.values[i] {
                            Expr::Literal(l) => match l {
                                Literal::String(s) => DBField::Text(s.clone()),
                                Literal::Number(n) => DBField::Int(*n),
                            },
                            _ => {
                                let bad = ins.values[i].clone();
                                proof {
                                    lemma_literals_err_extend(vs, i + 1);
                                }
                                return Err(
                                    QueryError::Engine(
                                        EngineError::UnexpectedExprExpectedLiteral(bad),
                                    ),
                                );
                            },
                        };
                        let ghost fs0 = fields.deep_view();
                        let ghost fv = f@;
                        fields.push(f);
                        proof {
                            assert(fields.deep_view() =~= fs0.push(fv));
                            assert(literals_to_fields(vs.take(i + 1)) == Ok::<
                                Seq<FieldV>,
                                EngineErrorV,
                            >(fs0.push(fv)));
                        }
                        i = i + 1;
                    }
                    proof {
                        assert(vs.take(vs.len() as int) =~= vs);
                    }
                    let col_names: Option<Vec<String>> = match &ins.columns {
                        Some(cs) => Some(clone_string_vec(cs)),
                        None => None,
                    };
                    proof {
                        assert(col_names.deep_view() == ins.columns.deep_view());
                    }
                    match table.insert(col_names, fields) {
                        Ok(_) => Ok(QueryResult::Empty),
                        Err(e) => Err(QueryError::Db(e)),
                    }
                },
                Statement::Select(sel) => {
                    match &sel.where_clause {
                        None => {
                            let cols = clone_string_vec(&sel.columns);
                            match table.select_cols(cols) {
                                Ok(rows) => Ok(QueryResult::Rows(rows)),
                                Err(e) => Err(QueryError::Db(e)),
                            }
                        },
                        Some(ws) => {
                            let cols = clone_string_vec(&sel.columns);
                            match table.select_where(cols, ws, self) {
                                Ok(rows) => Ok(QueryResult::Rows(rows)),
                                Err(e) => Err(e),
                            }
                        },
                    }
                },
            },
        }
    }
}

/// A non-literal value fails the conversion of every longer prefix too.
proof fn lemma_literals_err_extend(vs: Seq<ExprV>, m: int)
    requires
        0 <= m <= vs.len(),
        literals_to_fields(vs.take(m)) is Err,
    ensures
        literals_to_fields(vs) == literals_to_fields(vs.take(m)),
    decreases vs.len() - m,
{
    if m < vs.len() {
        assert(vs.take(m + 1).drop_last() =~= vs.take(m));
        lemma_literals_err_extend(vs, m + 1);
    } else {
        assert(vs.take(m) =~= vs);
    }
}

} // verus!
