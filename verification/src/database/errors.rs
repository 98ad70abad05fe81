//! The storage-side error taxonomy.

use crate::database::DBField;
use crate::database::DataTypes;
use crate::database::FieldV;
use vstd::prelude::*;

verus! {

/// What can go wrong when loading a table or mutating its rows.
#[derive(Debug)]
pub enum DBError {
    /// A requested or named column is not part of the table's header; the
    /// payload carries the full list of names the caller supplied.
    ColumnNotFound(Vec<String>),
    /// The table file's text does not follow the expected format.
    GenericLoadingError,
    /// A named column has no value supplied for it, or a value has no
    /// named column.
    MalformedInsertInput,
    /// A supplied value's type differs from the declared type of its target
    /// column; carries the offending value and the expected type.
    MistypedInsertInput(DBField, DataTypes),
}

/// The mathematical value of a `DBError`.
pub enum DBErrorV {
    ColumnNotFound(Seq<Seq<char>>),
    GenericLoadingError,
    MalformedInsertInput,
    MistypedInsertInput(FieldV, DataTypes),
}

impl DeepView for DBError {
    type V = DBErrorV;

    open spec fn deep_view(&self) -> DBErrorV {
        match self {
            DBError::ColumnNotFound(names) => DBErrorV::ColumnNotFound(names.deep_view()),
            DBError::GenericLoadingError => DBErrorV::GenericLoadingError,
            DBError::MalformedInsertInput => DBErrorV::MalformedInsertInput,
            DBError::MistypedInsertInput(f, t) => DBErrorV::MistypedInsertInput(f@, *t),
        }
    }
}

impl View for DBError {
    type V = DBErrorV;

    open spec fn view(&self) -> DBErrorV {
        self.deep_view()
    }
}

} // verus!
