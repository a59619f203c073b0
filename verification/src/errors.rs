//! The errors of each layer of the engine.

use vstd::prelude::*;

verus! {

/// Why a table's bytes could not be read back as rows.
#[derive(Clone, Copy, Debug, PartialEq, Eq, Structural)]
pub enum CodecError {
    /// A field of an `Int` column does not hold a 64-bit integer.
    TypeMismatch,
    /// The bytes are not a sequence of records, or a record has another
    /// number of fields than the table has columns.
    MalformedRecord,
}

/// Why a table could not be created.
#[derive(Clone, Copy, Debug, PartialEq, Eq, Structural)]
pub enum SchemaError {
    EmptyColumnList,
    DuplicateColumn,
    TableAlreadyExists,
    UnsupportedType,
}

/// Why a row was not inserted.
#[derive(Clone, Copy, Debug, PartialEq, Eq, Structural)]
pub enum InsertRowError {
    /// The row has another number of values than the table has columns.
    ArityMismatch,
    /// The value at this position is not of its column's type.
    TypeMismatch(usize),
    /// The row's estimated size alone exceeds a page.
    RowTooLarge,
    /// A numeric literal does not denote a 64-bit integer.
    UnmatchingType,
}

/// Why a table could not be scanned.
#[derive(Clone, Debug, PartialEq, Eq)]
pub enum SelectRowError {
    /// More columns were asked for than the table has.
    TooManyColumns,
    /// The table has no column of this name.
    UnknownColumn(String),
    /// A page could not be decoded.
    Codec(CodecError),
    /// The statement is a select of a shape that is not supported.
    UnsupportedQueryShape,
    /// The statement is not a select.
    UnsupportedOperation,
}

/// What a `SelectRowError` stands for.
pub enum SelectFailure {
    TooManyColumns,
    UnknownColumn(Seq<char>),
    Codec(CodecError),
    UnsupportedQueryShape,
    UnsupportedOperation,
}

impl View for SelectRowError {
    type V = SelectFailure;

    open spec fn view(&self) -> SelectFailure {
        match self {
            SelectRowError::TooManyColumns => SelectFailure::TooManyColumns,
            SelectRowError::UnknownColumn(name) => SelectFailure::UnknownColumn(name@),
            SelectRowError::Codec(e) => SelectFailure::Codec(*e),
            SelectRowError::UnsupportedQueryShape => SelectFailure::UnsupportedQueryShape,
            SelectRowError::UnsupportedOperation => SelectFailure::UnsupportedOperation,
        }
    }
}

/// Why a statement was refused.
#[derive(Clone, Debug, PartialEq, Eq)]
pub enum QueryError {
    UnknownTable,
    UnknownColumn,
    UnsupportedQueryShape,
    UnsupportedOperation,
    InsertMustSpecifyAllColumns,
    DuplicateTable,
    InsertRowError(InsertRowError),
    SelectRowError(SelectRowError),
    SchemaError(SchemaError),
}

} // verus!
