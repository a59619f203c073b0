//! Tables, columns and the values a row is made of.

use vstd::prelude::*;

verus! {

/// The type of the values a column holds.
#[derive(Clone, Copy, Debug, PartialEq, Eq, Structural)]
pub enum ColumnType {
    Int,
    Str,
}

/// A named, typed column of a table.
#[derive(Clone, Debug, PartialEq, Eq)]
pub struct Column {
    pub name: String,
    pub _type: ColumnType,
}

/// One field of a row.
#[derive(Clone, Debug, PartialEq, Eq)]
pub enum ColumnValue {
    Int(i64),
    Str(String),
}

/// A table's schema: its name and its columns, in row order.
#[derive(Clone, Debug, PartialEq, Eq)]
pub struct Table {
    pub name: String,
    pub columns: Vec<Column>,
}

/// What a `ColumnValue` stands for.
pub enum Value {
    Int(i64),
    Str(Seq<char>),
}

/// What a `Column` stands for.
pub struct ColumnSpec {
    pub name: Seq<char>,
    pub _type: ColumnType,
}

/// What a `Table` stands for.
pub struct Schema {
    pub name: Seq<char>,
    pub columns: Seq<ColumnSpec>,
}

impl View for ColumnValue {
    type V = Value;

    open spec fn view(&self) -> Value {
        match self {
            ColumnValue::Int(n) => Value::Int(*n),
            ColumnValue::Str(s) => Value::Str(s@),
        }
    }
}

impl DeepView for ColumnValue {
    type V = Value;

    open spec fn deep_view(&self) -> Value {
        self@
    }
}

impl View for Column {
    type V = ColumnSpec;

    open spec fn view(&self) -> ColumnSpec {
        ColumnSpec { name: self.name@, _type: self._type }
    }
}

impl DeepView for Column {
    type V = ColumnSpec;

    open spec fn deep_view(&self) -> ColumnSpec {
        self@
    }
}

impl View for Table {
    type V = Schema;

    open spec fn view(&self) -> Schema {
        Schema { name: self.name@, columns: self.columns.deep_view() }
    }
}

impl DeepView for Table {
    type V = Schema;

    open spec fn deep_view(&self) -> Schema {
        self@
    }
}

/// What a result stands for: what its value stands for, or its error.
pub open spec fn result_view<T: DeepView, E>(r: Result<T, E>) -> Result<T::V, E> {
    match r {
        Ok(value) => Ok(value.deep_view()),
        Err(e) => Err(e),
    }
}

/// The names of these columns, in order.
pub open spec fn column_names(columns: Seq<ColumnSpec>) -> Seq<Seq<char>> {
    Seq::new(columns.len(), |i: int| columns[i].name)
}

/// The names of these tables, in order.
pub open spec fn table_names(tables: Seq<Schema>) -> Seq<Seq<char>> {
    Seq::new(tables.len(), |i: int| tables[i].name)
}

/// The first position at which `names` holds `name`, if it holds it.
pub open spec fn first_index(names: Seq<Seq<char>>, name: Seq<char>) -> Option<int>
    decreases names.len(),
{
    if names.len() == 0 {
        None
    } else {
        match first_index(names.drop_last(), name) {
            Some(i) => Some(i),
            None => if names.last() == name {
                Some(names.len() - 1)
            } else {
                None
            },
        }
    }
}

/// A name found among the first `k` is found there among all.
pub proof fn lemma_first_index_prefix(names: Seq<Seq<char>>, name: Seq<char>, k: int)
    requires
        0 <= k <= names.len(),
    ensures
        first_index(names.take(k), name) is Some ==> first_index(names, name) == first_index(
            names.take(k),
            name,
        ),
    decreases names.len(),
{
    if k == names.len() {
        assert(names.take(k) =~= names);
    } else {
        lemma_first_index_prefix(names.drop_last(), name, k);
        assert(names.drop_last().take(k) =~= names.take(k));
    }
}

/// What `first_index` finds: the position of the name with no earlier one,
/// or that the name is nowhere.
pub proof fn lemma_first_index(names: Seq<Seq<char>>, name: Seq<char>)
    ensures
        match first_index(names, name) {
            Some(i) => 0 <= i < names.len() && names[i] == name && forall|j: int|
                0 <= j < i ==> #[trigger] names[j] != name,
            None => forall|j: int| 0 <= j < names.len() ==> #[trigger] names[j] != name,
        },
    decreases names.len(),
{
    if names.len() > 0 {
        let front = names.drop_last();
        lemma_first_index(front, name);
        assert(forall|j: int| 0 <= j < front.len() ==> front[j] == names[j]);
    }
}

impl Value {
    /// The column type this value belongs to.
    pub open spec fn type_of(self) -> ColumnType {
        match self {
            Value::Int(_) => ColumnType::Int,
            Value::Str(_) => ColumnType::Str,
        }
    }
}

impl ColumnValue {
    /// The column type this value belongs to.
    pub fn type_of(&self) -> (t: ColumnType)
        ensures
            t == self@.type_of(),
    {
        match self {
            ColumnValue::Int(_) => ColumnType::Int,
            ColumnValue::Str(_) => ColumnType::Str,
        }
    }

    /// A copy of this value.
    pub fn duplicate(&self) -> (v: ColumnValue)
        ensures
            v@ == self@,
    {
        match self {
            ColumnValue::Int(n) => ColumnValue::Int(*n),
            ColumnValue::Str(s) => ColumnValue::Str(s.clone()),
        }
    }
}

impl Table {
    /// A table with this name and these columns, taken as they are.
    pub fn new(name: String, columns: Vec<Column>) -> (table: Table)
        ensures
            table.name == name,
            table.columns == columns,
    {
        Table { name, columns }
    }
}

} // verus!
