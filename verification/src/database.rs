//! The storage side of the store: typed fields, columns, tables and their
//! on-disk text encoding.

pub mod codec;
pub mod errors;
pub mod table;

use crate::strutil::int_chars;
use crate::strutil::i32_to_string;
use vstd::prelude::*;

verus! {

/// The two data types a table column can declare.
#[derive(Debug, Clone, Copy, PartialEq, Eq, Structural)]
pub enum DataTypes {
    TEXT,
    INT,
}

/// The mathematical value of a stored field: its text as a character
/// sequence, or its integer value.
pub enum FieldV {
    Text(Seq<char>),
    Int(int),
}

/// A single typed scalar value of a row.
#[derive(Debug)]
pub enum DBField {
    Text(String),
    Int(i32),
}

/// A column of a table header: its name and its declared type.
#[derive(Debug)]
pub struct DBColumn {
    pub dt_type: DataTypes,
    pub name: String,
}

/// The mathematical value of a column.
pub struct ColumnV {
    pub dt_type: DataTypes,
    pub name: Seq<char>,
}

impl View for DBField {
    type V = FieldV;

    open spec fn view(&self) -> FieldV {
        match self {
            DBField::Text(s) => FieldV::Text(s@),
            DBField::Int(i) => FieldV::Int(*i as int),
        }
    }
}

impl DeepView for DBField {
    type V = FieldV;

    open spec fn deep_view(&self) -> FieldV {
        self.view()
    }
}

impl View for DBColumn {
    type V = ColumnV;

    open spec fn view(&self) -> ColumnV {
        ColumnV { dt_type: self.dt_type, name: self.name@ }
    }
}

impl DeepView for DBColumn {
    type V = ColumnV;

    open spec fn deep_view(&self) -> ColumnV {
        self.view()
    }
}

impl Clone for DBField {
    fn clone(&self) -> (r: Self)
        ensures
            r@ == self@,
    {
        match self {
            DBField::Text(s) => DBField::Text(s.clone()),
            DBField::Int(i) => DBField::Int(*i),
        }
    }
}

impl Clone for DBColumn {
    fn clone(&self) -> (r: Self)
        ensures
            r@ == self@,
    {
        DBColumn { dt_type: self.dt_type, name: self.name.clone() }
    }
}

impl PartialEq for DBField {
    fn eq(&self, other: &Self) -> (r: bool) {
        match (self, other) {
            (DBField::Text(a), DBField::Text(b)) => *a == *b,
            (DBField::Int(a), DBField::Int(b)) => *a == *b,
            _ => false,
        }
    }
}

impl vstd::std_specs::cmp::PartialEqSpecImpl for DBField {
    open spec fn obeys_eq_spec() -> bool {
        true
    }

    open spec fn eq_spec(&self, other: &Self) -> bool {
        self@ == other@
    }
}

impl PartialEq for DBColumn {
    fn eq(&self, other: &Self) -> (r: bool) {
        self.dt_type == other.dt_type && self.name == other.name
    }
}

impl vstd::std_specs::cmp::PartialEqSpecImpl for DBColumn {
    open spec fn obeys_eq_spec() -> bool {
        true
    }

    open spec fn eq_spec(&self, other: &Self) -> bool {
        self@ == other@
    }
}

impl DataTypes {
    /// The type token as it is written in a table file's header line.
    pub open spec fn spec_file_chars(self) -> Seq<char> {
        match self {
            DataTypes::TEXT => seq!['T', 'E', 'X', 'T'],
            DataTypes::INT => seq!['I', 'N', 'T'],
        }
    }

    pub fn to_file_string(&self) -> (s: String)
        ensures
            s@ == self.spec_file_chars(),
    {
        match self {
            DataTypes::TEXT => {
                let s = "TEXT".to_owned();
                proof {
                    reveal_strlit("TEXT");
                    assert(s@ =~= seq!['T', 'E', 'X', 'T']);
                }
                s
            },
            DataTypes::INT => {
                let s = "INT".to_owned();
                proof {
                    reveal_strlit("INT");
                    assert(s@ =~= seq!['I', 'N', 'T']);
                }
                s
            },
        }
    }
}

/// How a field is written on its row line: text verbatim, integers in
/// decimal.
pub open spec fn field_file_chars(f: FieldV) -> Seq<char> {
    match f {
        FieldV::Text(s) => s,
        FieldV::Int(i) => int_chars(i),
    }
}

impl DBField {
    pub fn to_file_string(&self) -> (s: String)
        ensures
            s@ == field_file_chars(self@),
    {
        match self {
            DBField::Text(s) => s.clone(),
            DBField::Int(i) => i32_to_string(*i),
        }
    }
}

/// How a column is written on the header line: `name: TYPE`.
pub open spec fn column_file_chars(c: ColumnV) -> Seq<char> {
    c.name + seq![':', ' '] + c.dt_type.spec_file_chars()
}

impl DBColumn {
    pub fn to_file_string(&self) -> (s: String)
        ensures
            s@ == column_file_chars(self@),
    {
        let mut s = self.name.clone();
        crate::strutil::push_char(&mut s, ':');
        crate::strutil::push_char(&mut s, ' ');
        let ty = self.dt_type.to_file_string();
        s.append(ty.as_str());
        proof {
            assert(s@ =~= column_file_chars(self@));
        }
        s
    }
}

} // verus!
