//! A table: an immutable typed header plus an ordered list of rows, with
//! schema-validated insertion and projection.

use crate::database::errors::DBError;
use crate::database::errors::DBErrorV;
use crate::database::ColumnV;
use crate::database::DBColumn;
use crate::database::DBField;
use crate::database::DataTypes;
use crate::database::FieldV;
use crate::sql::ast::Expr;
use crate::sql::ast::ExprV;
use crate::sql::engine::eval_expr_spec;
use crate::sql::engine::Engine;
use crate::sql::engine::QueryError;
use crate::sql::engine::QueryErrorV;
use crate::sql::errors::EngineErrorV;
use vstd::prelude::*;

verus! {

/// The mathematical value of a table.
pub struct TableV {
    pub name: Seq<char>,
    pub header: Seq<ColumnV>,
    pub entries: Seq<Seq<FieldV>>,
}

/// A table: its name, its header fixed at load time, and its rows.
#[derive(Debug)]
pub struct Table {
    pub name: String,
    pub header: Vec<DBColumn>,
    pub entries: Vec<Vec<DBField>>,
}

impl View for Table {
    type V = TableV;

    open spec fn view(&self) -> TableV {
        TableV {
            name: self.name@,
            header: self.header.deep_view(),
            entries: self.entries.deep_view(),
        }
    }
}

/// Whether a field value has the declared type.
pub open spec fn field_matches(f: FieldV, t: DataTypes) -> bool {
    match (f, t) {
        (FieldV::Text(_), DataTypes::TEXT) => true,
        (FieldV::Int(_), DataTypes::INT) => true,
        _ => false,
    }
}

/// A row fits a header when it is no wider than the header and each of its
/// fields has its column's declared type.  Rows written by `insert` are
/// always full width; a lenient load may leave shorter rows.
pub open spec fn row_matches_header(row: Seq<FieldV>, header: Seq<ColumnV>) -> bool {
    row.len() <= header.len() && forall|i: int|
        0 <= i < row.len() ==> field_matches(#[trigger] row[i], header[i].dt_type)
}

/// The table invariant: every stored row fits the header.
pub open spec fn wf_table(t: TableV) -> bool {
    forall|r: int| 0 <= r < t.entries.len() ==> row_matches_header(#[trigger] t.entries[r], t.header)
}

// ---------------------------------------------------------------------------
// Column resolution
// ---------------------------------------------------------------------------

/// The position of the first header column with the given name.
pub open spec fn find_col(header: Seq<ColumnV>, name: Seq<char>) -> Option<int>
    decreases header.len(),
{
    if header.len() == 0 {
        None
    } else if header[0].name == name {
        Some(0)
    } else {
        match find_col(header.skip(1), name) {
            Some(j) => Some(j + 1),
            None => None,
        }
    }
}

/// `find_col` with a default, for use where resolution is already known to
/// succeed.
pub open spec fn col_at(header: Seq<ColumnV>, name: Seq<char>) -> int {
    match find_col(header, name) {
        Some(i) => i,
        None => 0,
    }
}

pub proof fn lemma_find_col_props(header: Seq<ColumnV>, name: Seq<char>)
    ensures
        match find_col(header, name) {
            Some(i) => 0 <= i < header.len() && header[i].name == name && forall|k: int|
                0 <= k < i ==> header[k].name != name,
            None => forall|k: int| 0 <= k < header.len() ==> header[k].name != name,
        },
    decreases header.len(),
{
    if header.len() > 0 && header[0].name != name {
        lemma_find_col_props(header.skip(1), name);
        match find_col(header.skip(1), name) {
            Some(j) => {
                assert(header[j + 1] == header.skip(1)[j]);
                assert forall|k: int| 0 <= k < j + 1 implies header[k].name != name by {
                    if k > 0 {
                        assert(header.skip(1)[k - 1] == header[k]);
                    }
                }
            },
            None => {
                assert forall|k: int| 0 <= k < header.len() implies header[k].name != name by {
                    if k > 0 {
                        assert(header.skip(1)[k - 1] == header[k]);
                    }
                }
            },
        }
    }
}

/// Finds the first header column with the given name.
pub(crate) fn find_col_exec(header: &Vec<DBColumn>, name: &String) -> (r: Option<usize>)
    ensures
        match r {
            Some(i) => find_col(header.deep_view(), name@) == Some(i as int) && i
                < header.len(),
            None => find_col(header.deep_view(), name@) is None,
        },
{
    let ghost hv = header.deep_view();
    let mut i: usize = 0;
    while i < header.len()
        invariant
            i <= header.len(),
            hv == header.deep_view(),
            hv.len() == header.len(),
            forall|k: int| 0 <= k < i ==> (#[trigger] hv[k]).name != name@,
        decreases header.len() - i,
    {
        if header[i].name == *name {
            proof {
                lemma_find_col_props(hv, name@);
                assert(hv[i as int].name == name@);
                match find_col(hv, name@) {
                    Some(j) => {
                        if j < i {
                            assert(hv[j].name != name@);
                        }
                        if j > i {
                            assert(hv[i as int].name != name@);
                        }
                    },
                    None => {
                        assert(hv[i as int].name != name@);
                    },
                }
            }
            return Some(i);
        }
        i = i + 1;
    }
    proof {
        lemma_find_col_props(hv, name@);
        if let Some(j) = find_col(hv, name@) {
            assert(hv[j].name != name@);
        }
    }
    None
}

/// Resolves every requested name to its first header position; `None` when
/// any name is unknown.
pub open spec fn resolve_cols(header: Seq<ColumnV>, cols: Seq<Seq<char>>) -> Option<Seq<int>> {
    if forall|i: int| 0 <= i < cols.len() ==> find_col(header, #[trigger] cols[i]) is Some {
        Some(Seq::new(cols.len(), |i: int| col_at(header, cols[i])))
    } else {
        None
    }
}

/// Resolves all requested column names, strictly: every name must be part
/// of the header.
pub(crate) fn resolve_cols_exec(header: &Vec<DBColumn>, cols: &Vec<String>) -> (r: Option<
    Vec<usize>,
>)
    ensures
        match r {
            Some(idxs) => {
                &&& idxs.len() == cols.len()
                &&& forall|k: int|
                    0 <= k < cols.len() ==> find_col(header.deep_view(), cols.deep_view()[k])
                        == Some(#[trigger] idxs@[k] as int) && idxs@[k] < header.len()
                &&& resolve_cols(header.deep_view(), cols.deep_view()) == Some(
                    idxs@.map_values(|x: usize| x as int),
                )
            },
            None => resolve_cols(header.deep_view(), cols.deep_view()) is None,
        },
{
    let ghost hv = header.deep_view();
    let ghost cv = cols.deep_view();
    let mut idxs: Vec<usize> = Vec::new();
    let mut i: usize = 0;
    while i < cols.len()
        invariant
            i <= cols.len(),
            idxs.len() == i,
            hv == header.deep_view(),
            cv == cols.deep_view(),
            cv.len() == cols.len(),
            forall|k: int|
                0 <= k < i ==> find_col(hv, cv[k]) == Some(#[trigger] idxs@[k] as int) && idxs@[k]
                    < header.len(),
        decreases cols.len() - i,
    {
        proof {
            assert(cv[i as int] == cols[i as int]@);
        }
        match find_col_exec(header, &cols[i]) {
            Some(p) => {
                idxs.push(p);
            },
            None => {
                proof {
                    assert(find_col(hv, cv[i as int]) is None);
                    assert(resolve_cols(hv, cv) is None);
                }
                return None;
            },
        }
        i = i + 1;
    }
    proof {
        assert forall|k: int| 0 <= k < cv.len() implies find_col(hv, #[trigger] cv[k]) is Some by {
            assert(find_col(hv, cv[k]) == Some(idxs@[k] as int));
        }
        assert(resolve_cols(hv, cv) == Some(Seq::new(cv.len(), |k: int| col_at(hv, cv[k]))));
        assert(Seq::new(cv.len(), |k: int| col_at(hv, cv[k])) =~= idxs@.map_values(
            |x: usize| x as int,
        ));
    }
    Some(idxs)
}

// ---------------------------------------------------------------------------
// Insertion
// ---------------------------------------------------------------------------

/// The effective list of named columns: what the caller gave, or the whole
/// header in schema order.
pub open spec fn names_or_header(names: Option<Seq<Seq<char>>>, header: Seq<ColumnV>) -> Seq<
    Seq<char>,
> {
    match names {
        Some(ns) => ns,
        None => header.map(|i: int, c: ColumnV| c.name),
    }
}

/// The default value stored for a column that the insert did not name.
pub open spec fn default_field(t: DataTypes) -> FieldV {
    match t {
        DataTypes::TEXT => FieldV::Text(Seq::empty()),
        DataTypes::INT => FieldV::Int(0),
    }
}

/// The value at position `i` is well-typed for its named column.
pub open spec fn value_ok(
    names: Seq<Seq<char>>,
    values: Seq<FieldV>,
    header: Seq<ColumnV>,
    i: int,
) -> bool {
    match find_col(header, names[i]) {
        Some(p) => field_matches(values[i], header[p].dt_type),
        None => false,
    }
}

/// The first position at or after `i` whose value is mistyped.
pub open spec fn first_bad_value(
    names: Seq<Seq<char>>,
    values: Seq<FieldV>,
    header: Seq<ColumnV>,
    i: int,
) -> Option<int>
    decreases names.len() - i when 0 <= i <= names.len()
{
    if i >= names.len() {
        None
    } else if !value_ok(names, values, header, i) {
        Some(i)
    } else {
        first_bad_value(names, values, header, i + 1)
    }
}

pub proof fn lemma_first_bad_from(
    names: Seq<Seq<char>>,
    values: Seq<FieldV>,
    header: Seq<ColumnV>,
    i: int,
)
    requires
        0 <= i <= names.len(),
        forall|k: int| 0 <= k < i ==> value_ok(names, values, header, k),
    ensures
        first_bad_value(names, values, header, 0) == first_bad_value(names, values, header, i),
    decreases i,
{
    if i > 0 {
        lemma_first_bad_from(names, values, header, i - 1);
        assert(value_ok(names, values, header, i - 1));
    }
}

/// The position in the named list that feeds header position `p`: the first
/// name that resolves to `p`, searched from `j` on.
pub open spec fn source_index(
    names: Seq<Seq<char>>,
    header: Seq<ColumnV>,
    p: int,
    j: int,
) -> Option<int>
    decreases names.len() - j when 0 <= j <= names.len()
{
    if j >= names.len() {
        None
    } else if find_col(header, names[j]) == Some(p) {
        Some(j)
    } else {
        source_index(names, header, p, j + 1)
    }
}

pub proof fn lemma_source_index_from(
    names: Seq<Seq<char>>,
    header: Seq<ColumnV>,
    p: int,
    j: int,
)
    requires
        0 <= j <= names.len(),
        forall|k: int| 0 <= k < j ==> find_col(header, names[k]) != Some(p),
    ensures
        source_index(names, header, p, 0) == source_index(names, header, p, j),
    decreases j,
{
    if j > 0 {
        lemma_source_index_from(names, header, p, j - 1);
    }
}

proof fn lemma_first_bad_some(
    names: Seq<Seq<char>>,
    values: Seq<FieldV>,
    header: Seq<ColumnV>,
    j: int,
    i: int,
)
    requires
        0 <= j <= i < names.len(),
        !value_ok(names, values, header, i),
    ensures
        first_bad_value(names, values, header, j) is Some,
    decreases i - j,
{
    if j < i && value_ok(names, values, header, j) {
        lemma_first_bad_some(names, values, header, j + 1, i);
    }
}

proof fn lemma_first_bad_none_all(
    names: Seq<Seq<char>>,
    values: Seq<FieldV>,
    header: Seq<ColumnV>,
    j: int,
)
    requires
        0 <= j <= names.len(),
        first_bad_value(names, values, header, j) is None,
    ensures
        forall|k: int| j <= k < names.len() ==> value_ok(names, values, header, k),
    decreases names.len() - j,
{
    if j < names.len() {
        lemma_first_bad_none_all(names, values, header, j + 1);
    }
}

/// A successful insert preserves the table invariant: the new row is full
/// width and every field has its column's declared type.
pub proof fn lemma_insert_spec_wf(
    t: TableV,
    names_opt: Option<Seq<Seq<char>>>,
    values: Seq<FieldV>,
)
    requires
        wf_table(t),
    ensures
        match insert_spec(t, names_opt, values) {
            Ok(t2) => wf_table(t2) && t2.header == t.header && t2.name == t.name
                && t2.entries.len() == t.entries.len() + 1 && t2.entries.last().len()
                == t.header.len() && forall|r: int|
                0 <= r < t.entries.len() ==> t2.entries[r] == t.entries[r],
            Err(_) => true,
        },
{
    let names = names_or_header(names_opt, t.header);
    match insert_spec(t, names_opt, values) {
        Ok(t2) => {
            lemma_first_bad_none_all(names, values, t.header, 0);
            let row = built_row(names, values, t.header);
            assert(t2.entries == t.entries.push(row));
            assert forall|q: int| 0 <= q < row.len() implies field_matches(
                #[trigger] row[q],
                t.header[q].dt_type,
            ) by {
                lemma_source_index_props(names, t.header, q, 0);
                match source_index(names, t.header, q, 0) {
                    Some(j) => {
                        assert(value_ok(names, values, t.header, j));
                        assert(find_col(t.header, names[j]) == Some(q));
                        assert(col_at(t.header, names[j]) == q);
                    },
                    None => {},
                }
            }
            assert forall|r: int| 0 <= r < t2.entries.len() implies row_matches_header(
                #[trigger] t2.entries[r],
                t2.header,
            ) by {
                if r < t.entries.len() {
                    assert(t2.entries[r] == t.entries[r]);
                } else {
                    assert(t2.entries[r] == row);
                }
            }
        },
        Err(_) => {},
    }
}

/// Type safety: when every named column exists and each name has its
/// value, but some value's type differs from its column's declared type,
/// the insert fails with `MistypedInsertInput` — and, by `insert`'s
/// contract, an insert that fails leaves the table (and hence its file)
/// unchanged.
pub proof fn lemma_mistyped_insert_rejected(
    t: TableV,
    names_opt: Option<Seq<Seq<char>>>,
    values: Seq<FieldV>,
)
    requires
        forall|i: int|
            0 <= i < names_or_header(names_opt, t.header).len() ==> find_col(
                t.header,
                #[trigger] names_or_header(names_opt, t.header)[i],
            ) is Some,
        names_or_header(names_opt, t.header).len() == values.len(),
        exists|i: int|
            0 <= i < names_or_header(names_opt, t.header).len() && !value_ok(
                names_or_header(names_opt, t.header),
                values,
                t.header,
                i,
            ),
    ensures
        insert_spec(t, names_opt, values) matches Err(DBErrorV::MistypedInsertInput(_, _)),
{
    let names = names_or_header(names_opt, t.header);
    let i = choose|i: int| 0 <= i < names.len() && !value_ok(names, values, t.header, i);
    lemma_first_bad_some(names, values, t.header, 0, i);
}

pub proof fn lemma_source_index_props(
    names: Seq<Seq<char>>,
    header: Seq<ColumnV>,
    p: int,
    j: int,
)
    requires
        0 <= j <= names.len(),
    ensures
        match source_index(names, header, p, j) {
            Some(l) => j <= l < names.len() && find_col(header, names[l]) == Some(p),
            None => true,
        },
    decreases names.len() - j,
{
    if j < names.len() && find_col(header, names[j]) != Some(p) {
        lemma_source_index_props(names, header, p, j + 1);
    }
}

/// The full-width, schema-ordered row an insert stores: each header
/// position takes the value of the first name that resolves to it, or the
/// type default when no name does.
pub open spec fn built_row(
    names: Seq<Seq<char>>,
    values: Seq<FieldV>,
    header: Seq<ColumnV>,
) -> Seq<FieldV> {
    Seq::new(
        header.len(),
        |p: int|
            match source_index(names, header, p, 0) {
                Some(j) => values[j],
                None => default_field(header[p].dt_type),
            },
    )
}

/// What inserting does to a table: validates that every named column
/// exists, that names and values correspond one to one, and that every
/// value has its column's type; then appends the built row.  On any error
/// the table is unchanged.
pub open spec fn insert_spec(
    t: TableV,
    names_opt: Option<Seq<Seq<char>>>,
    values: Seq<FieldV>,
) -> Result<TableV, DBErrorV> {
    let names = names_or_header(names_opt, t.header);
    if exists|i: int| 0 <= i < names.len() && find_col(t.header, #[trigger] names[i]) is None {
        Err(DBErrorV::ColumnNotFound(names))
    } else if names.len() != values.len() {
        Err(DBErrorV::MalformedInsertInput)
    } else {
        match first_bad_value(names, values, t.header, 0) {
            Some(i) => Err(
                DBErrorV::MistypedInsertInput(
                    values[i],
                    t.header[col_at(t.header, names[i])].dt_type,
                ),
            ),
            None => Ok(
                TableV {
                    name: t.name,
                    header: t.header,
                    entries: t.entries.push(built_row(names, values, t.header)),
                },
            ),
        }
    }
}

pub(crate) fn field_matches_exec(f: &DBField, t: DataTypes) -> (r: bool)
    ensures
        r == field_matches(f@, t),
{
    match (f, t) {
        (DBField::Text(_), DataTypes::TEXT) => true,
        (DBField::Int(_), DataTypes::INT) => true,
        _ => false,
    }
}

impl Table {
    /// Validates the named columns and values against the header and, on
    /// success, appends the full-width row both in memory and in the
    /// table's value; any error leaves the table unchanged.
    pub fn insert(&mut self, col_names: Option<Vec<String>>, values: Vec<DBField>) -> (r: Result<
        (),
        DBError,
    >)
        requires
            wf_table(old(self)@),
        ensures
            wf_table(final(self)@),
            match r {
                Ok(_) => insert_spec(old(self)@, col_names.deep_view(), values.deep_view())
                    == Ok::<TableV, DBErrorV>(final(self)@),
                Err(e) => insert_spec(old(self)@, col_names.deep_view(), values.deep_view())
                    == Err::<TableV, DBErrorV>(e.deep_view()) && final(self)@ == old(self)@,
            },
    {
        let ghost t0 = self@;
        let ghost names_opt_v = col_names.deep_view();
        let names: Vec<String> = match col_names {
            Some(ns) => ns,
            None => {
                let mut ns: Vec<String> = Vec::new();
                let mut i: usize = 0;
                while i < self.header.len()
                    invariant
                        i <= self.header.len(),
                        *self == *old(self),
                        t0 == self@,
                        t0.header.len() == self.header.len(),
                        ns.len() == i,
                        forall|k: int| 0 <= k < i ==> ns.deep_view()[k] == t0.header[k].name,
                    decreases self.header.len() - i,
                {
                    let nm = self.header[i].name.clone();
                    proof {
                        assert(t0.header[i as int] == self.header@[i as int].deep_view());
                        assert(nm@ == t0.header[i as int].name);
                    }
                    let ghost ns0 = ns.deep_view();
                    ns.push(nm);
                    proof {
                        assert forall|k: int| 0 <= k < i + 1 implies ns.deep_view()[k]
                            == t0.header[k].name by {
                            if k < i {
                                assert(ns.deep_view()[k] == ns0[k]);
                            }
                        }
                    }
                    i = i + 1;
                }
                proof {
                    assert(ns.deep_view() =~= t0.header.map(|k: int, c: ColumnV| c.name));
                }
                ns
            },
        };
        let ghost names_v = names.deep_view();
        proof {
            assert(names_v =~= names_or_header(names_opt_v, t0.header));
        }
        let idxs: Vec<usize> = match resolve_cols_exec(&self.header, &names) {
            Some(idxs) => idxs,
            None => {
                proof {
                    assert(exists|i: int|
                        0 <= i < names_v.len() && find_col(t0.header, #[trigger] names_v[i])
                            is None) by {
                        if forall|i: int|
                            0 <= i < names_v.len() ==> find_col(t0.header, #[trigger] names_v[i])
                                is Some {
                            assert(resolve_cols(t0.header, names_v) is Some);
                        }
                    }
                }
                return Err(DBError::ColumnNotFound(names));
            },
        };
        proof {
            assert(forall|i: int|
                0 <= i < names_v.len() ==> find_col(t0.header, #[trigger] names_v[i]) is Some);
        }
        if names.len() != values.len() {
            return Err(DBError::MalformedInsertInput);
        }
        let ghost values_v = values.deep_view();
        let mut i: usize = 0;
        while i < names.len()
            invariant
                i <= names.len(),
                *self == *old(self),
                t0 == self@,
                names.len() == values.len(),
                names_v == names.deep_view(),
                values_v == values.deep_view(),
                names_v.len() == names.len(),
                values_v.len() == values.len(),
                idxs.len() == names.len(),
                forall|k: int|
                    0 <= k < names_v.len() ==> find_col(t0.header, names_v[k]) == Some(
                        #[trigger] idxs@[k] as int,
                    ) && idxs@[k] < self.header.len(),
                forall|k: int| 0 <= k < i ==> value_ok(names_v, values_v, t0.header, k),
            decreases names.len() - i,
        {
            let p = idxs[i];
            let expected = self.header[p].dt_type;
            if !field_matches_exec(&values[i], expected) {
                proof {
                    assert(col_at(t0.header, names_v[i as int]) == p as int);
                    assert(values_v[i as int] == values[i as int]@);
                    assert(t0.header[p as int].dt_type == expected);
                    assert(!value_ok(names_v, values_v, t0.header, i as int));
                    lemma_first_bad_from(names_v, values_v, t0.header, i as int);
                    assert(first_bad_value(names_v, values_v, t0.header, 0) == Some(i as int));
                }
                let bad = values[i].clone();
                let e = DBError::MistypedInsertInput(bad, expected);
                proof {
                    assert(*self == *old(self));
                    assert(self@ == old(self)@);
                    assert forall|k: int|
                        0 <= k < names_v.len() implies find_col(
                        t0.header,
                        #[trigger] names_v[k],
                    ) is Some by {
                        assert(find_col(t0.header, names_v[k]) == Some(idxs@[k] as int));
                    }
                    assert(e.deep_view() == DBErrorV::MistypedInsertInput(
                        values_v[i as int],
                        t0.header[p as int].dt_type,
                    ));
                    let names_s = names_or_header(names_opt_v, t0.header);
                    assert(names_s == names_v);
                    assert(!(exists|k: int|
                        0 <= k < names_s.len() && find_col(t0.header, #[trigger] names_s[k])
                            is None)) by {
                        if exists|k: int|
                            0 <= k < names_s.len() && find_col(t0.header, #[trigger] names_s[k])
                                is None {
                            let k = choose|k: int|
                                0 <= k < names_s.len() && find_col(
                                    t0.header,
                                    #[trigger] names_s[k],
                                ) is None;
                            assert(names_s[k] == names_v[k]);
                            assert(find_col(t0.header, names_v[k]) == Some(idxs@[k] as int));
                        }
                    }
                    assert(names_s.len() == values_v.len());
                    assert(first_bad_value(names_s, values_v, t0.header, 0) == Some(i as int));
                    assert(col_at(t0.header, names_s[i as int]) == p as int);
                    assert(insert_spec(t0, names_opt_v, values_v) == Err::<TableV, DBErrorV>(
                        DBErrorV::MistypedInsertInput(values_v[i as int], t0.header[p as int].dt_type),
                    ));
                }
                return Err(e);
            }
            proof {
                assert(value_ok(names_v, values_v, t0.header, i as int));
            }
            i = i + 1;
        }
        proof {
            lemma_first_bad_from(names_v, values_v, t0.header, names_v.len() as int);
            assert(first_bad_value(names_v, values_v, t0.header, 0) is None);
        }
        // build the row in schema order
        let ghost target = built_row(names_v, values_v, t0.header);
        let mut row: Vec<DBField> = Vec::new();
        let mut p: usize = 0;
        while p < self.header.len()
            invariant
                p <= self.header.len(),
                *self == *old(self),
                t0 == self@,
                names.len() == values.len(),
                names_v == names.deep_view(),
                values_v == values.deep_view(),
                names_v.len() == names.len(),
                values_v.len() == values.len(),
                idxs.len() == names.len(),
                target == built_row(names_v, values_v, t0.header),
                t0.header.len() == self.header.len(),
                forall|k: int|
                    0 <= k < names_v.len() ==> find_col(t0.header, names_v[k]) == Some(
                        #[trigger] idxs@[k] as int,
                    ) && idxs@[k] < self.header.len(),
                row.len() == p,
                forall|q: int| 0 <= q < p ==> row.deep_view()[q] == target[q],
            decreases self.header.len() - p,
        {
            let mut j: usize = 0;
            while j < names.len() && idxs[j] != p
                invariant
                    j <= names.len(),
                    names_v.len() == names.len(),
                    idxs.len() == names.len(),
                    forall|k: int|
                        0 <= k < names_v.len() ==> find_col(t0.header, names_v[k]) == Some(
                            #[trigger] idxs@[k] as int,
                        ),
                    forall|k: int| 0 <= k < j ==> find_col(t0.header, names_v[k]) != Some(
                        p as int,
                    ),
                decreases names.len() - j,
            {
                proof {
                    assert(find_col(t0.header, names_v[j as int]) == Some(idxs@[j as int] as int));
                }
                j = j + 1;
            }
            if j < names.len() {
                proof {
                    lemma_source_index_from(names_v, t0.header, p as int, j as int);
                    assert(find_col(t0.header, names_v[j as int]) == Some(p as int));
                    assert(source_index(names_v, t0.header, p as int, 0) == Some(j as int));
                    assert(target[p as int] == values_v[j as int]);
                }
                let f = values[j].clone();
                row.push(f);
            } else {
                proof {
                    lemma_source_index_from(names_v, t0.header, p as int, names_v.len() as int);
                    assert(source_index(names_v, t0.header, p as int, 0) is None);
                    assert(target[p as int] == default_field(t0.header[p as int].dt_type));
                }
                let f = match self.header[p].dt_type {
                    DataTypes::TEXT => DBField::Text(String::new()),
                    DataTypes::INT => DBField::Int(0),
                };
                row.push(f);
            }
            proof {
                assert forall|q: int| 0 <= q < p + 1 implies row.deep_view()[q] == target[q] by {
                    if q < p {
                        assert(row.deep_view()[q] == target[q]);
                    }
                }
            }
            p = p + 1;
        }
        proof {
            assert(row.deep_view() =~= target);
        }
        let ghost entries0 = self.entries.deep_view();
        self.entries.push(row);
        proof {
            assert(self.entries.deep_view() =~= entries0.push(target));
            assert(self@.entries == t0.entries.push(target));
            assert(self@.header == t0.header);
            assert(self@.name == t0.name);
            assert(insert_spec(t0, names_opt_v, values_v) == Ok::<TableV, DBErrorV>(self@));
            assert(wf_table(self@)) by {
                assert forall|r: int|
                    0 <= r < self@.entries.len() implies row_matches_header(
                    #[trigger] self@.entries[r],
                    self@.header,
                ) by {
                    if r < t0.entries.len() {
                        assert(self@.entries[r] == t0.entries[r]);
                        assert(row_matches_header(t0.entries[r], t0.header));
                    } else {
                        assert(self@.entries[r] == target);
                        assert forall|q: int| 0 <= q < target.len() implies field_matches(
                            #[trigger] target[q],
                            t0.header[q].dt_type,
                        ) by {
                            lemma_source_index_props(names_v, t0.header, q, 0);
                            match source_index(names_v, t0.header, q, 0) {
                                Some(l) => {
                                    assert(find_col(t0.header, names_v[l]) == Some(q));
                                    assert(value_ok(names_v, values_v, t0.header, l));
                                    assert(col_at(t0.header, names_v[l]) == q);
                                },
                                None => {},
                            }
                        }
                    }
                }
            }
        }
        Ok(())
    }
}

// ---------------------------------------------------------------------------
// Projection
// ---------------------------------------------------------------------------

/// The largest resolved position, at least 0: rows shorter than this are
/// skipped by selection.
pub open spec fn max_index(idxs: Seq<int>) -> int
    decreases idxs.len(),
{
    if idxs.len() == 0 {
        0
    } else {
        let m = max_index(idxs.drop_last());
        if idxs.last() > m {
            idxs.last()
        } else {
            m
        }
    }
}

pub proof fn lemma_max_index_ge(idxs: Seq<int>, k: int)
    requires
        0 <= k < idxs.len(),
    ensures
        idxs[k] <= max_index(idxs),
        max_index(idxs) >= 0,
    decreases idxs.len(),
{
    if idxs.len() > 0 {
        if k < idxs.len() - 1 {
            lemma_max_index_ge(idxs.drop_last(), k);
            assert(idxs.drop_last()[k] == idxs[k]);
        }
        if idxs.len() >= 2 {
            lemma_max_index_ge(idxs.drop_last(), 0);
        }
    }
}

/// The requested fields of one row, in requested order.
pub open spec fn project_row(row: Seq<FieldV>, idxs: Seq<int>) -> Seq<FieldV> {
    Seq::new(idxs.len(), |k: int| row[idxs[k]])
}

/// The projected rows of a table, in storage order; rows too short for the
/// largest requested position are skipped.
pub open spec fn select_rows(entries: Seq<Seq<FieldV>>, idxs: Seq<int>) -> Seq<Seq<FieldV>>
    decreases entries.len(),
{
    if entries.len() == 0 {
        Seq::empty()
    } else {
        let rest = select_rows(entries.drop_last(), idxs);
        if entries.last().len() >= max_index(idxs) + 1 {
            rest.push(project_row(entries.last(), idxs))
        } else {
            rest
        }
    }
}

/// What selecting columns returns: the requested columns of every wide
/// enough row, or `ColumnNotFound` when the request is empty or any name
/// does not resolve.
pub open spec fn select_cols_spec(t: TableV, cols: Seq<Seq<char>>) -> Result<
    Seq<Seq<FieldV>>,
    DBErrorV,
> {
    if cols.len() == 0 {
        Err(DBErrorV::ColumnNotFound(cols))
    } else {
        match resolve_cols(t.header, cols) {
            None => Err(DBErrorV::ColumnNotFound(cols)),
            Some(idxs) => Ok(select_rows(t.entries, idxs)),
        }
    }
}

/// Computes the largest resolved position of a nonempty index list.
fn max_of(idxs: &Vec<usize>) -> (m: usize)
    ensures
        m as int == max_index(idxs@.map_values(|x: usize| x as int)),
{
    let ghost iv = idxs@.map_values(|x: usize| x as int);
    let mut m: usize = 0;
    let mut k: usize = 0;
    proof {
        assert(iv.take(0) =~= Seq::<int>::empty());
    }
    while k < idxs.len()
        invariant
            k <= idxs.len(),
            iv == idxs@.map_values(|x: usize| x as int),
            iv.len() == idxs.len(),
            m as int == max_index(iv.take(k as int)),
        decreases idxs.len() - k,
    {
        proof {
            assert(iv.take(k + 1).drop_last() =~= iv.take(k as int));
            assert(iv.take(k + 1).last() == iv[k as int]);
        }
        if idxs[k] > m {
            m = idxs[k];
        }
        k = k + 1;
    }
    proof {
        assert(iv.take(idxs.len() as int) =~= iv);
    }
    m
}

impl Table {
    /// Projects the requested columns out of every row that is wide enough,
    /// in storage order.
    pub fn select_cols(&self, cols: Vec<String>) -> (r: Result<Vec<Vec<DBField>>, DBError>)
        ensures
            match r {
                Ok(rows) => select_cols_spec(self@, cols.deep_view()) == Ok::<
                    Seq<Seq<FieldV>>,
                    DBErrorV,
                >(rows.deep_view()),
                Err(e) => select_cols_spec(self@, cols.deep_view()) == Err::<
                    Seq<Seq<FieldV>>,
                    DBErrorV,
                >(e.deep_view()),
            },
    {
        let ghost cv = cols.deep_view();
        if cols.len() == 0 {
            return Err(DBError::ColumnNotFound(cols));
        }
        let idxs: Vec<usize> = match resolve_cols_exec(&self.header, &cols) {
            Some(idxs) => idxs,
            None => {
                return Err(DBError::ColumnNotFound(cols));
            },
        };
        let ghost iv = idxs@.map_values(|x: usize| x as int);
        let maxi = max_of(&idxs);
        let mut out: Vec<Vec<DBField>> = Vec::new();
        let mut r: usize = 0;
        proof {
            assert(self@.entries.take(0) =~= Seq::<Seq<FieldV>>::empty());
            assert(out.deep_view() =~= Seq::<Seq<FieldV>>::empty());
        }
        while r < self.entries.len()
            invariant
                r <= self.entries.len(),
                iv == idxs@.map_values(|x: usize| x as int),
                iv.len() == idxs.len(),
                maxi as int == max_index(iv),
                forall|k: int| 0 <= k < idxs.len() ==> #[trigger] idxs@[k] as int == iv[k],
                self@.entries.len() == self.entries.len(),
                self@.entries == self.entries.deep_view(),
                out.deep_view() == select_rows(self@.entries.take(r as int), iv),
            decreases self.entries.len() - r,
        {
            let row = &self.entries[r];
            proof {
                assert(self@.entries[r as int] == self.entries@[r as int].deep_view());
                assert(self@.entries.take(r + 1).drop_last() =~= self@.entries.take(r as int));
                assert(self@.entries.take(r + 1).last() == self@.entries[r as int]);
            }
            if row.len() > maxi {
                let mut row_vec: Vec<DBField> = Vec::new();
                let mut k: usize = 0;
                proof {
                    assert(row.deep_view() == self@.entries[r as int]);
                }
                while k < idxs.len()
                    invariant
                        k <= idxs.len(),
                        r < self.entries.len(),
                        self@.entries.len() == self.entries.len(),
                        iv == idxs@.map_values(|x: usize| x as int),
                        iv.len() == idxs.len(),
                        forall|kk: int| 0 <= kk < idxs.len() ==> #[trigger] idxs@[kk] as int
                            == iv[kk],
                        row.deep_view() == self@.entries[r as int],
                        row.len() >= max_index(iv) + 1,
                        maxi as int == max_index(iv),
                        row_vec.len() == k,
                        forall|q: int|
                            0 <= q < k ==> row_vec.deep_view()[q] == project_row(
                                self@.entries[r as int],
                                iv,
                            )[q],
                    decreases idxs.len() - k,
                {
                    proof {
                        lemma_max_index_ge(iv, k as int);
                    }
                    let f = row[idxs[k]].clone();
                    let ghost rv0 = row_vec.deep_view();
                    row_vec.push(f);
                    proof {
                        assert(row_vec.deep_view()[k as int] == row@[iv[k as int]].deep_view());
                        assert(project_row(self@.entries[r as int], iv)[k as int]
                            == self@.entries[r as int][iv[k as int]]);
                        assert forall|q: int| 0 <= q < k + 1 implies row_vec.deep_view()[q]
                            == project_row(self@.entries[r as int], iv)[q] by {
                            if q < k {
                                assert(row_vec.deep_view()[q] == rv0[q]);
                            }
                        }
                    }
                    k = k + 1;
                }
                proof {
                    assert(row_vec.deep_view() =~= project_row(self@.entries[r as int], iv));
                }
                let ghost out0 = out.deep_view();
                out.push(row_vec);
                proof {
                    assert(out.deep_view() =~= out0.push(project_row(self@.entries[r as int], iv)));
                }
            }
            r = r + 1;
        }
        proof {
            assert(self@.entries.take(self.entries.len() as int) =~= self@.entries);
        }
        Ok(out)
    }
}

// ---------------------------------------------------------------------------
// Filtered selection
// ---------------------------------------------------------------------------

/// A row passes a top-level conjunction when every expression evaluates to
/// true, in order; the first false excludes the row, the first evaluation
/// error aborts.
pub open spec fn row_passes(
    exprs: Seq<ExprV>,
    row: Seq<FieldV>,
    header: Seq<ColumnV>,
) -> Result<bool, EngineErrorV>
    decreases exprs.len(),
{
    if exprs.len() == 0 {
        Ok(true)
    } else {
        match eval_expr_spec(exprs[0], row, header) {
            Err(e) => Err(e),
            Ok(false) => Ok(false),
            Ok(true) => row_passes(exprs.skip(1), row, header),
        }
    }
}

/// The projected rows that pass every where expression, in storage order;
/// rows too short for the largest requested position are skipped without
/// being evaluated, and the first evaluation error aborts the whole
/// selection.
pub open spec fn select_where_rows(
    entries: Seq<Seq<FieldV>>,
    idxs: Seq<int>,
    exprs: Seq<ExprV>,
    header: Seq<ColumnV>,
) -> Result<Seq<Seq<FieldV>>, EngineErrorV>
    decreases entries.len(),
{
    if entries.len() == 0 {
        Ok(Seq::empty())
    } else {
        match select_where_rows(entries.drop_last(), idxs, exprs, header) {
            Err(e) => Err(e),
            Ok(rest) => {
                let row = entries.last();
                if row.len() >= max_index(idxs) + 1 {
                    match row_passes(exprs, row, header) {
                        Err(e) => Err(e),
                        Ok(true) => Ok(rest.push(project_row(row, idxs))),
                        Ok(false) => Ok(rest),
                    }
                } else {
                    Ok(rest)
                }
            },
        }
    }
}

/// What a filtered selection returns: the requested columns of every wide
/// enough row that passes all where expressions; `ColumnNotFound` when the
/// request is empty or a name does not resolve, and the evaluator's error
/// when a row cannot be evaluated.
pub open spec fn select_where_spec(
    t: TableV,
    cols: Seq<Seq<char>>,
    exprs: Seq<ExprV>,
) -> Result<Seq<Seq<FieldV>>, QueryErrorV> {
    if cols.len() == 0 {
        Err(QueryErrorV::Db(DBErrorV::ColumnNotFound(cols)))
    } else {
        match resolve_cols(t.header, cols) {
            None => Err(QueryErrorV::Db(DBErrorV::ColumnNotFound(cols))),
            Some(idxs) => match select_where_rows(t.entries, idxs, exprs, t.header) {
                Err(e) => Err(QueryErrorV::Engine(e)),
                Ok(rows) => Ok(rows),
            },
        }
    }
}

/// An evaluation error in some prefix of the rows aborts the whole
/// selection.
proof fn lemma_select_where_rows_err_extend(
    entries: Seq<Seq<FieldV>>,
    idxs: Seq<int>,
    exprs: Seq<ExprV>,
    header: Seq<ColumnV>,
    m: int,
)
    requires
        0 <= m <= entries.len(),
        select_where_rows(entries.take(m), idxs, exprs, header) is Err,
    ensures
        select_where_rows(entries, idxs, exprs, header) == select_where_rows(
            entries.take(m),
            idxs,
            exprs,
            header,
        ),
    decreases entries.len() - m,
{
    if m < entries.len() {
        assert(entries.take(m + 1).drop_last() =~= entries.take(m));
        lemma_select_where_rows_err_extend(entries, idxs, exprs, header, m + 1);
    } else {
        assert(entries.take(m) =~= entries);
    }
}

impl Table {
    /// Projects the requested columns out of every wide enough row that
    /// passes all where expressions, asking the engine to evaluate each
    /// expression against each candidate row.
    pub fn select_where(
        &self,
        cols: Vec<String>,
        where_exprs: &Vec<Expr>,
        engine: &Engine,
    ) -> (r: Result<Vec<Vec<DBField>>, QueryError>)
        ensures
            match r {
                Ok(rows) => select_where_spec(
                    self@,
                    cols.deep_view(),
                    where_exprs.deep_view(),
                ) == Ok::<Seq<Seq<FieldV>>, QueryErrorV>(rows.deep_view()),
                Err(e) => select_where_spec(self@, cols.deep_view(), where_exprs.deep_view())
                    == Err::<Seq<Seq<FieldV>>, QueryErrorV>(e.deep_view()),
            },
    {
        let ghost cv = cols.deep_view();
        let ghost wv = where_exprs.deep_view();
        if cols.len() == 0 {
            return Err(QueryError::Db(DBError::ColumnNotFound(cols)));
        }
        let idxs: Vec<usize> = match resolve_cols_exec(&self.header, &cols) {
            Some(idxs) => idxs,
            None => {
                return Err(QueryError::Db(DBError::ColumnNotFound(cols)));
            },
        };
        let ghost iv = idxs@.map_values(|x: usize| x as int);
        let maxi = max_of(&idxs);
        let mut out: Vec<Vec<DBField>> = Vec::new();
        let mut r: usize = 0;
        proof {
            assert(self@.entries.take(0) =~= Seq::<Seq<FieldV>>::empty());
            assert(out.deep_view() =~= Seq::<Seq<FieldV>>::empty());
        }
        while r < self.entries.len()
            invariant
                r <= self.entries.len(),
                iv == idxs@.map_values(|x: usize| x as int),
                iv.len() == idxs.len(),
                maxi as int == max_index(iv),
                forall|k: int| 0 <= k < idxs.len() ==> #[trigger] idxs@[k] as int == iv[k],
                self@.entries.len() == self.entries.len(),
                self@.entries == self.entries.deep_view(),
                wv == where_exprs.deep_view(),
                select_where_rows(self@.entries.take(r as int), iv, wv, self@.header) == Ok::<
                    Seq<Seq<FieldV>>,
                    EngineErrorV,
                >(out.deep_view()),
            decreases self.entries.len() - r,
        {
            let row = &self.entries[r];
            proof {
                assert(row.deep_view() == self@.entries[r as int]);
                assert(self@.entries.take(r + 1).drop_last() =~= self@.entries.take(r as int));
                assert(self@.entries.take(r + 1).last() == self@.entries[r as int]);
            }
            if row.len() > maxi {
                // evaluate the conjunction on this row
                let mut passed = true;
                let mut k: usize = 0;
                proof {
                    assert(wv.skip(0) =~= wv);
                }
                while passed && k < where_exprs.len()
                    invariant
                        k <= where_exprs.len(),
                        wv == where_exprs.deep_view(),
                        wv.len() == where_exprs.len(),
                        row.deep_view() == self@.entries[r as int],
                        r < self.entries.len(),
                        self@.entries == self.entries.deep_view(),
                        passed ==> row_passes(wv, row.deep_view(), self@.header) == row_passes(
                            wv.skip(k as int),
                            row.deep_view(),
                            self@.header,
                        ),
                        !passed ==> row_passes(wv, row.deep_view(), self@.header) == Ok::<
                            bool,
                            EngineErrorV,
                        >(false),
                    decreases where_exprs.len() - k,
                {
                    proof {
                        assert(wv.skip(k as int)[0] == wv[k as int]);
                        assert(wv.skip(k as int).skip(1) =~= wv.skip(k + 1));
                    }
                    match engine.eval_expr(&where_exprs[k], row, &self.header) {
                        Ok(true) => {},
                        Ok(false) => {
                            passed = false;
                        },
                        Err(er) => {
                            proof {
                                assert(row_passes(wv, row.deep_view(), self@.header) == Err::<
                                    bool,
                                    EngineErrorV,
                                >(er.deep_view()));
                                assert(select_where_rows(
                                    self@.entries.take(r + 1),
                                    iv,
                                    wv,
                                    self@.header,
                                ) is Err);
                                lemma_select_where_rows_err_extend(
                                    self@.entries,
                                    iv,
                                    wv,
                                    self@.header,
                                    r + 1,
                                );
                            }
                            return Err(QueryError::Engine(er));
                        },
                    }
                    k = k + 1;
                }
                proof {
                    if passed {
                        assert(wv.skip(where_exprs.len() as int) =~= Seq::<ExprV>::empty());
                        assert(row_passes(wv, row.deep_view(), self@.header) == Ok::<
                            bool,
                            EngineErrorV,
                        >(true));
                    }
                }
                if passed {
                    let mut row_vec: Vec<DBField> = Vec::new();
                    let mut k2: usize = 0;
                    while k2 < idxs.len()
                        invariant
                            k2 <= idxs.len(),
                            r < self.entries.len(),
                            self@.entries.len() == self.entries.len(),
                            iv == idxs@.map_values(|x: usize| x as int),
                            iv.len() == idxs.len(),
                            forall|kk: int| 0 <= kk < idxs.len() ==> #[trigger] idxs@[kk] as int
                                == iv[kk],
                            row.deep_view() == self@.entries[r as int],
                            row.len() >= max_index(iv) + 1,
                            maxi as int == max_index(iv),
                            row_vec.len() == k2,
                            forall|q: int|
                                0 <= q < k2 ==> row_vec.deep_view()[q] == project_row(
                                    self@.entries[r as int],
                                    iv,
                                )[q],
                        decreases idxs.len() - k2,
                    {
                        proof {
                            lemma_max_index_ge(iv, k2 as int);
                        }
                        let f = row[idxs[k2]].clone();
                        let ghost rv0 = row_vec.deep_view();
                        row_vec.push(f);
                        proof {
                            assert(row_vec.deep_view()[k2 as int] == row@[iv[k2 as int]].deep_view());
                            assert(project_row(self@.entries[r as int], iv)[k2 as int]
                                == self@.entries[r as int][iv[k2 as int]]);
                            assert forall|q: int| 0 <= q < k2 + 1 implies row_vec.deep_view()[q]
                                == project_row(self@.entries[r as int], iv)[q] by {
                                if q < k2 {
                                    assert(row_vec.deep_view()[q] == rv0[q]);
                                }
                            }
                        }
                        k2 = k2 + 1;
                    }
                    proof {
                        assert(row_vec.deep_view() =~= project_row(self@.entries[r as int], iv));
                    }
                    let ghost out0 = out.deep_view();
                    out.push(row_vec);
                    proof {
                        assert(out.deep_view() =~= out0.push(
                            project_row(self@.entries[r as int], iv),
                        ));
                    }
                }
            }
            r = r + 1;
        }
        proof {
            assert(self@.entries.take(self.entries.len() as int) =~= self@.entries);
        }
        Ok(out)
    }
}

} // verus!
