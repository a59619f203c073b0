//! A parsed statement, as far as the engine reads it.
//!
//! The engine never sees SQL text. Whoever parses it hands over one of these
//! values, which keeps of the statement tree what the engine decides on.

use vstd::prelude::*;

verus! {

/// One source of a select's `FROM` clause.
#[derive(Clone, Debug, PartialEq, Eq)]
pub enum TableRef {
    /// A table named plainly.
    Named(String),
    /// Anything else: an aliased table, a join, a subquery.
    Other,
}

/// One item of a select's projection list.
#[derive(Clone, Debug, PartialEq, Eq)]
pub enum SelectItem {
    /// A column named plainly.
    Column(String),
    /// `*`, or `t.*`.
    Wildcard,
    /// An expression with an alias.
    Aliased,
}

/// One value of an insert's `VALUES` row.
#[derive(Clone, Debug, PartialEq, Eq)]
pub enum Literal {
    /// A numeric literal, as written.
    Number(String),
    /// The contents of a single-quoted string.
    QuotedString(String),
    /// Any other literal or expression.
    Other,
}

/// A column type as the statement names it.
#[derive(Clone, Copy, Debug, PartialEq, Eq, Structural)]
pub enum SqlType {
    Int,
    Text,
    Other,
}

/// One column of a create-table statement.
#[derive(Clone, Debug, PartialEq, Eq)]
pub struct ColumnDef {
    pub name: String,
    pub data_type: SqlType,
}

/// A parsed statement.
#[derive(Clone, Debug, PartialEq, Eq)]
pub enum Statement {
    Select { from: Vec<TableRef>, projection: Vec<SelectItem>, filtered: bool },
    Insert { table_name: String, columns: Vec<String>, rows: Vec<Vec<Literal>> },
    CreateTable { name: String, column_defs: Vec<ColumnDef> },
    /// Any other kind of statement.
    Other,
}

/// Whether a select has the one supported shape: a single plainly named
/// table, no filter, and a projection list of plainly named columns.
pub open spec fn supported_select(
    from: Seq<TableRef>,
    projection: Seq<SelectItem>,
    filtered: bool,
) -> bool {
    &&& from.len() == 1
    &&& from[0] is Named
    &&& !filtered
    &&& forall|i: int| 0 <= i < projection.len() ==> (#[trigger] projection[i]) is Column
}

/// The column names of a projection list of plainly named columns, in order.
pub open spec fn projection_names(projection: Seq<SelectItem>) -> Seq<Seq<char>> {
    Seq::new(projection.len(), |i: int| projection[i]->Column_0@)
}

/// The names a supported select asks for, or `None` where the select is of
/// another shape.
pub fn select_columns(
    from: &Vec<TableRef>,
    projection: &Vec<SelectItem>,
    filtered: bool,
) -> (r: Option<Vec<String>>)
    ensures
        r is Some <==> supported_select(from@, projection@, filtered),
        r matches Some(names) ==> names.deep_view() == projection_names(projection@),
{
    if from.len() != 1 || filtered {
        return None;
    }
    match &from[0] {
        TableRef::Named(_) => {},
        TableRef::Other => {
            return None;
        },
    }
    let mut names: Vec<String> = Vec::new();
    let mut i: usize = 0;
    while i < projection.len()
        invariant
            i <= projection.len(),
            names.len() == i,
            forall|j: int| 0 <= j < i ==> (#[trigger] projection[j]) is Column,
            forall|j: int| 0 <= j < i ==> (#[trigger] names[j])@ == projection[j]->Column_0@,
        decreases projection.len() - i,
    {
        match &projection[i] {
            SelectItem::Column(name) => {
                names.push(name.clone());
            },
            _ => {
                return None;
            },
        }
        i = i + 1;
    }
    assert(names.deep_view() =~= projection_names(projection@));
    Some(names)
}

} // verus!
