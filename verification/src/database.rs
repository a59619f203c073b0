//! The catalog of tables, and the bridge from a parsed statement to the
//! storage operation that carries it out.

use crate::decimal::{parse_i64, parse_i64_spec};
use crate::errors::{InsertRowError, QueryError, SchemaError, SelectFailure};
use crate::page::{Page, PageWrite, PageWriteSpec};
use crate::schema::{
    column_names, first_index, lemma_first_index, lemma_first_index_prefix, result_view,
    table_names, Column, ColumnSpec, ColumnType, ColumnValue, Schema, Table, Value,
};
use crate::statement::{
    projection_names, select_columns, supported_select, ColumnDef, Literal, SqlType, Statement,
    TableRef,
};
use crate::table::{
    check_names_unique, first_unknown, insert_spec, lemma_first_unknown, names_unique,
    page_contents, select_spec, valid_columns,
};
use vstd::prelude::*;

verus! {

/// The storage operation that a statement resolves to.
#[derive(Clone, Debug, PartialEq, Eq)]
pub enum Operation {
    /// Create this table. Its name is free in the catalog and its columns
    /// are valid.
    CreateTable { name: String, columns: Vec<Column> },
    /// Insert this row into the table at this position of the catalog.
    Insert { table: usize, row: Vec<ColumnValue> },
    /// Scan the table at this position of the catalog for these columns.
    Select { table: usize, names: Vec<String> },
}

/// What a statement comes to once its operation is carried out.
#[derive(Clone, Debug, PartialEq, Eq)]
pub enum QueryResult {
    /// The values a select projected, row after row, in one flat sequence.
    RowsProjected(Vec<ColumnValue>),
    TableCreated,
    RowInserted,
}

/// What an `Operation` stands for.
pub enum OperationSpec {
    CreateTable { name: Seq<char>, columns: Seq<ColumnSpec> },
    Insert { table: int, row: Seq<Value> },
    Select { table: int, names: Seq<Seq<char>> },
}

impl DeepView for Operation {
    type V = OperationSpec;

    open spec fn deep_view(&self) -> OperationSpec {
        self@
    }
}

impl View for Operation {
    type V = OperationSpec;

    open spec fn view(&self) -> OperationSpec {
        match self {
            Operation::CreateTable { name, columns } => OperationSpec::CreateTable {
                name: name@,
                columns: columns.deep_view(),
            },
            Operation::Insert { table, row } => OperationSpec::Insert {
                table: *table as int,
                row: row.deep_view(),
            },
            Operation::Select { table, names } => OperationSpec::Select {
                table: *table as int,
                names: names.deep_view(),
            },
        }
    }
}

/// Whether a catalog is in order: every table has valid columns, and no two
/// tables share a name.
pub open spec fn catalog_valid(tables: Seq<Schema>) -> bool {
    &&& forall|i: int| 0 <= i < tables.len() ==> valid_columns((#[trigger] tables[i]).columns)
    &&& forall|i: int, j: int|
        0 <= i < j < tables.len() ==> (#[trigger] tables[i]).name != (#[trigger] tables[j]).name
}

/// The value a literal of an insert stands for: a number is read as a 64-bit
/// integer, a quoted string is taken as it is, anything else is refused.
pub open spec fn literal_value(literal: Literal) -> Result<Value, QueryError> {
    match literal {
        Literal::Number(text) => match parse_i64_spec(text@) {
            Some(n) => Ok(Value::Int(n)),
            None => Err(QueryError::InsertRowError(InsertRowError::UnmatchingType)),
        },
        Literal::QuotedString(s) => Ok(Value::Str(s@)),
        Literal::Other => Err(QueryError::UnsupportedQueryShape),
    }
}

/// The row that the literals of an insert stand for; the first literal that
/// stands for no value decides the error.
pub open spec fn literal_values(literals: Seq<Literal>) -> Result<Seq<Value>, QueryError>
    decreases literals.len(),
{
    if literals.len() == 0 {
        Ok(Seq::empty())
    } else {
        match literal_values(literals.drop_last()) {
            Err(e) => Err(e),
            Ok(row) => match literal_value(literals.last()) {
                Err(e) => Err(e),
                Ok(value) => Ok(row.push(value)),
            },
        }
    }
}

/// The engine's column type for a type named in a statement.
pub open spec fn column_type_of(data_type: SqlType) -> Option<ColumnType> {
    match data_type {
        SqlType::Int => Some(ColumnType::Int),
        SqlType::Text => Some(ColumnType::Str),
        SqlType::Other => None,
    }
}

/// Whether every column of a create-table statement has a supported type.
pub open spec fn types_supported(defs: Seq<ColumnDef>) -> bool {
    forall|i: int| 0 <= i < defs.len() ==> column_type_of((#[trigger] defs[i]).data_type) is Some
}

/// The columns that a create-table statement defines.
pub open spec fn defined_columns(defs: Seq<ColumnDef>) -> Seq<ColumnSpec>
    recommends
        types_supported(defs),
{
    Seq::new(
        defs.len(),
        |i: int| ColumnSpec { name: defs[i].name@, _type: column_type_of(defs[i].data_type)->0 },
    )
}

/// Whether a table of this name and these columns may join the catalog.
pub open spec fn new_table_check(
    tables: Seq<Schema>,
    name: Seq<char>,
    columns: Seq<ColumnSpec>,
) -> Result<(), QueryError> {
    if first_index(table_names(tables), name) is Some {
        Err(QueryError::DuplicateTable)
    } else if columns.len() == 0 {
        Err(QueryError::SchemaError(SchemaError::EmptyColumnList))
    } else if !names_unique(columns) {
        Err(QueryError::SchemaError(SchemaError::DuplicateColumn))
    } else {
        Ok(())
    }
}

/// The outcome of registering a table of this name and these columns:
/// the check against the catalog first, then that its namespace is free.
pub open spec fn create_table_check(
    tables: Seq<Schema>,
    name: Seq<char>,
    columns: Seq<ColumnSpec>,
    namespace_exists: bool,
) -> Result<(), QueryError> {
    match new_table_check(tables, name, columns) {
        Err(e) => Err(e),
        Ok(()) => if namespace_exists {
            Err(QueryError::SchemaError(SchemaError::TableAlreadyExists))
        } else {
            Ok(())
        },
    }
}

/// The operation that a statement resolves to against a catalog, or the
/// error it is refused with.
pub open spec fn query_spec(
    tables: Seq<Schema>,
    statement: Statement,
) -> Result<OperationSpec, QueryError> {
    match statement {
        Statement::Select { from, projection, filtered } => {
            if !supported_select(from@, projection@, filtered) {
                Err(QueryError::UnsupportedQueryShape)
            } else {
                match first_index(table_names(tables), from@[0]->Named_0@) {
                    None => Err(QueryError::UnknownTable),
                    Some(t) => if first_unknown(tables[t].columns, projection_names(projection@))
                        is Some {
                        Err(QueryError::UnknownColumn)
                    } else {
                        Ok(
                            OperationSpec::Select {
                                table: t,
                                names: projection_names(projection@),
                            },
                        )
                    },
                }
            }
        },
        Statement::Insert { table_name, columns, rows } => {
            match first_index(table_names(tables), table_name@) {
                None => Err(QueryError::UnknownTable),
                Some(t) => if columns.deep_view() != column_names(tables[t].columns) {
                    Err(QueryError::InsertMustSpecifyAllColumns)
                } else if rows.len() != 1 {
                    Err(QueryError::UnsupportedQueryShape)
                } else {
                    match literal_values(rows@[0]@) {
                        Err(e) => Err(e),
                        Ok(row) => Ok(OperationSpec::Insert { table: t, row }),
                    }
                },
            }
        },
        Statement::CreateTable { name, column_defs } => {
            if !types_supported(column_defs@) {
                Err(QueryError::SchemaError(SchemaError::UnsupportedType))
            } else {
                match new_table_check(tables, name@, defined_columns(column_defs@)) {
                    Err(e) => Err(e),
                    Ok(()) => Ok(
                        OperationSpec::CreateTable {
                            name: name@,
                            columns: defined_columns(column_defs@),
                        },
                    ),
                }
            }
        },
        Statement::Other => Err(QueryError::UnsupportedOperation),
    }
}

/// A statement that refers to what the catalog does not hold is refused: a
/// select or an insert that names no table of the catalog is an unknown
/// table, a select of the supported shape that names a column its table does
/// not have is an unknown column, an insert that does not name exactly the
/// columns of its table must specify all columns, and a table without
/// columns is not created.
pub proof fn lemma_unknown_references_fail(tables: Seq<Schema>, statement: Statement)
    ensures
        match statement {
            Statement::Select { from, projection, filtered } => supported_select(
                from@,
                projection@,
                filtered,
            ) ==> match first_index(table_names(tables), from@[0]->Named_0@) {
                None => query_spec(tables, statement) == Err::<OperationSpec, QueryError>(
                    QueryError::UnknownTable,
                ),
                Some(t) => (exists|j: int|
                    0 <= j < projection.len() && first_index(
                        column_names(tables[t].columns),
                        #[trigger] projection_names(projection@)[j],
                    ) is None) ==> query_spec(tables, statement) == Err::<
                    OperationSpec,
                    QueryError,
                >(QueryError::UnknownColumn),
            },
            Statement::Insert { table_name, columns, rows } => match first_index(
                table_names(tables),
                table_name@,
            ) {
                None => query_spec(tables, statement) == Err::<OperationSpec, QueryError>(
                    QueryError::UnknownTable,
                ),
                Some(t) => columns.deep_view() != column_names(tables[t].columns) ==> query_spec(
                    tables,
                    statement,
                ) == Err::<OperationSpec, QueryError>(QueryError::InsertMustSpecifyAllColumns),
            },
            Statement::CreateTable { name, column_defs } => column_defs.len() == 0 && first_index(
                table_names(tables),
                name@,
            ) is None ==> query_spec(tables, statement) == Err::<OperationSpec, QueryError>(
                QueryError::SchemaError(SchemaError::EmptyColumnList),
            ),
            Statement::Other => query_spec(tables, statement) is Err,
        },
{
    match statement {
        Statement::Select { from, projection, filtered } => {
            if supported_select(from@, projection@, filtered) {
                match first_index(table_names(tables), from@[0]->Named_0@) {
                    None => {},
                    Some(t) => {
                        lemma_first_unknown(tables[t].columns, projection_names(projection@));
                    },
                }
            }
        },
        _ => {},
    }
}

/// The outcome of building a catalog from these tables, one after the other:
/// each is checked against the tables before it.
pub open spec fn catalog_check(tables: Seq<Schema>) -> Result<(), QueryError>
    decreases tables.len(),
{
    if tables.len() == 0 {
        Ok(())
    } else {
        match catalog_check(tables.drop_last()) {
            Err(e) => Err(e),
            Ok(()) => new_table_check(tables.drop_last(), tables.last().name, tables.last().columns),
        }
    }
}

/// A table among the first `k` that is refused decides for all.
pub proof fn lemma_catalog_check_error(tables: Seq<Schema>, k: int)
    requires
        0 <= k <= tables.len(),
    ensures
        catalog_check(tables.take(k)) is Err ==> catalog_check(tables) == catalog_check(
            tables.take(k),
        ),
    decreases tables.len(),
{
    if k == tables.len() {
        assert(tables.take(k) =~= tables);
    } else {
        lemma_catalog_check_error(tables.drop_last(), k);
        assert(tables.drop_last().take(k) =~= tables.take(k));
    }
}

/// Tables that pass the check one after the other form a valid catalog.
pub proof fn lemma_catalog_check_valid(tables: Seq<Schema>)
    requires
        catalog_check(tables) is Ok,
    ensures
        catalog_valid(tables),
    decreases tables.len(),
{
    if tables.len() > 0 {
        let earlier = tables.drop_last();
        lemma_catalog_check_valid(earlier);
        lemma_first_index(table_names(earlier), tables.last().name);
        assert forall|i: int| 0 <= i < tables.len() implies valid_columns(
            (#[trigger] tables[i]).columns,
        ) by {
            if i < earlier.len() {
                assert(tables[i] == earlier[i]);
            }
        }
        assert forall|i: int, j: int| 0 <= i < j < tables.len() implies (#[trigger] tables[i]).name
            != (#[trigger] tables[j]).name by {
            if j < earlier.len() {
                assert(tables[i] == earlier[i] && tables[j] == earlier[j]);
            } else {
                assert(table_names(earlier)[i] == tables[i].name);
            }
        }
    }
}

/// The outcome of an insert into the table at a position of the catalog: the
/// table's own outcome, its error passed on inside a `QueryError`.
pub open spec fn database_insert_spec(
    tables: Seq<Schema>,
    table: int,
    row: Seq<Value>,
    page_sizes: Seq<u64>,
) -> Result<PageWriteSpec, QueryError> {
    if 0 <= table < tables.len() {
        match insert_spec(tables[table].columns, row, page_sizes) {
            Ok(write) => Ok(write),
            Err(e) => Err(QueryError::InsertRowError(e)),
        }
    } else {
        Err(QueryError::UnknownTable)
    }
}

/// An error among the first `k` literals is the error of all of them.
pub proof fn lemma_literal_values_error(literals: Seq<Literal>, k: int)
    requires
        0 <= k <= literals.len(),
    ensures
        literal_values(literals.take(k)) is Err ==> literal_values(literals) == literal_values(
            literals.take(k),
        ),
    decreases literals.len(),
{
    if k == literals.len() {
        assert(literals.take(k) =~= literals);
    } else {
        lemma_literal_values_error(literals.drop_last(), k);
        assert(literals.drop_last().take(k) =~= literals.take(k));
    }
}

/// Turns the literals of an insert into a row.
pub fn convert_literals(literals: &Vec<Literal>) -> (r: Result<Vec<ColumnValue>, QueryError>)
    ensures
        result_view(r) == literal_values(literals@),
{
    let mut row: Vec<ColumnValue> = Vec::new();
    let mut i: usize = 0;
    assert(literals@.take(0) =~= Seq::<Literal>::empty());
    assert(row.deep_view() =~= Seq::<Value>::empty());
    while i < literals.len()
        invariant
            i <= literals.len(),
            literal_values(literals@.take(i as int)) == Ok::<Seq<Value>, QueryError>(
                row.deep_view(),
            ),
        decreases literals.len() - i,
    {
        let ghost before = row.deep_view();
        proof {
            assert(literals@.take(i + 1).drop_last() =~= literals@.take(i as int));
            assert(literals@.take(i + 1).last() == literals[i as int]);
            lemma_literal_values_error(literals@, i + 1);
        }
        let value = match &literals[i] {
            Literal::Number(text) => match parse_i64(text.as_str()) {
                Some(n) => ColumnValue::Int(n),
                None => {
                    return Err(QueryError::InsertRowError(InsertRowError::UnmatchingType));
                },
            },
            Literal::QuotedString(s) => ColumnValue::Str(s.clone()),
            Literal::Other => {
                return Err(QueryError::UnsupportedQueryShape);
            },
        };
        row.push(value);
        assert(row.deep_view() =~= before.push(value@));
        i = i + 1;
    }
    assert(literals@.take(literals.len() as int) =~= literals@);
    Ok(row)
}

/// Maps the columns of a create-table statement to the engine's columns;
/// `None` where one of them has a type that is not supported.
pub fn define_columns(defs: &Vec<ColumnDef>) -> (r: Option<Vec<Column>>)
    ensures
        r is Some <==> types_supported(defs@),
        r matches Some(columns) ==> columns.deep_view() == defined_columns(defs@),
{
    let mut columns: Vec<Column> = Vec::new();
    let mut i: usize = 0;
    while i < defs.len()
        invariant
            i <= defs.len(),
            columns.len() == i,
            forall|j: int| 0 <= j < i ==> column_type_of((#[trigger] defs[j]).data_type) is Some,
            forall|j: int|
                0 <= j < i ==> (#[trigger] columns[j])@ == (ColumnSpec {
                    name: defs[j].name@,
                    _type: column_type_of(defs[j].data_type)->0,
                }),
        decreases defs.len() - i,
    {
        let _type = match defs[i].data_type {
            SqlType::Int => ColumnType::Int,
            SqlType::Text => ColumnType::Str,
            SqlType::Other => {
                return None;
            },
        };
        columns.push(Column { name: defs[i].name.clone(), _type });
        i = i + 1;
    }
    assert(columns.deep_view() =~= defined_columns(defs@));
    Some(columns)
}

/// Whether these names are the names of these columns, one for one and in
/// the same order.
pub fn names_all_columns(names: &Vec<String>, columns: &Vec<Column>) -> (same: bool)
    ensures
        same == (names.deep_view() == column_names(columns.deep_view())),
{
    if names.len() != columns.len() {
        assert(names.deep_view().len() != column_names(columns.deep_view()).len());
        return false;
    }
    let mut i: usize = 0;
    while i < names.len()
        invariant
            i <= names.len() == columns.len(),
            forall|j: int| 0 <= j < i ==> (#[trigger] names[j])@ == columns[j].name@,
        decreases names.len() - i,
    {
        if names[i] != columns[i].name {
            assert(names.deep_view()[i as int] != column_names(columns.deep_view())[i as int]);
            return false;
        }
        i = i + 1;
    }
    assert(names.deep_view() =~= column_names(columns.deep_view()));
    true
}

/// The catalog: the tables the engine knows, in the order they were created.
#[derive(Debug)]
pub struct Database {
    tables: Vec<Table>,
}

impl View for Database {
    type V = Seq<Schema>;

    closed spec fn view(&self) -> Seq<Schema> {
        self.tables.deep_view()
    }
}

impl Database {
    #[verifier::type_invariant]
    spec fn well_formed(self) -> bool {
        catalog_valid(self.tables.deep_view())
    }

    /// An empty catalog.
    pub fn new() -> (database: Database)
        ensures
            database@ == Seq::<Schema>::empty(),
    {
        let database = Database { tables: Vec::new() };
        assert(database.tables.deep_view() =~= Seq::<Schema>::empty());
        database
    }

    /// A catalog of these tables, as one that was loaded: each table is
    /// checked as if it were created after those before it.
    #[verifier::loop_isolation(false)]
    pub fn from_tables(tables: Vec<Table>) -> (r: Result<Database, QueryError>)
        ensures
            match r {
                Ok(database) => catalog_check(tables.deep_view()) is Ok && database@
                    == tables.deep_view(),
                Err(e) => catalog_check(tables.deep_view()) is Err && catalog_check(
                    tables.deep_view(),
                )->Err_0 == e,
            },
    {
        let ghost all = tables.deep_view();
        let mut i: usize = 0;
        assert(all.take(0) =~= Seq::<Schema>::empty());
        while i < tables.len()
            invariant
                i <= tables.len(),
                all == tables.deep_view(),
                catalog_check(all.take(i as int)) is Ok,
            decreases tables.len() - i,
        {
            let ghost earlier = all.take(i as int);
            proof {
                assert(all.take(i + 1).drop_last() =~= earlier);
                assert(all.take(i + 1).last() == tables[i as int]@);
                lemma_catalog_check_error(all, i + 1);
                lemma_first_index(table_names(earlier), tables[i as int].name@);
            }
            let mut j: usize = 0;
            while j < i
                invariant
                    j <= i < tables.len(),
                    all == tables.deep_view(),
                    earlier == all.take(i as int),
                    forall|k: int|
                        0 <= k < j ==> (#[trigger] table_names(earlier)[k]) != tables[i as int].name@,
                decreases i - j,
            {
                if tables[j].name == tables[i].name {
                    assert(table_names(earlier)[j as int] == tables[i as int].name@);
                    return Err(QueryError::DuplicateTable);
                }
                j = j + 1;
            }
            if tables[i].columns.len() == 0 {
                return Err(QueryError::SchemaError(SchemaError::EmptyColumnList));
            }
            if !check_names_unique(&tables[i].columns) {
                return Err(QueryError::SchemaError(SchemaError::DuplicateColumn));
            }
            i = i + 1;
        }
        proof {
            assert(all.take(tables.len() as int) =~= all);
            lemma_catalog_check_valid(all);
        }
        Ok(Database { tables })
    }

    /// The tables of the catalog. They always form a valid catalog.
    pub fn tables(&self) -> (tables: &Vec<Table>)
        ensures
            tables.deep_view() == self@,
            catalog_valid(self@),
    {
        proof {
            use_type_invariant(self);
        }
        &self.tables
    }

    /// The position of the table of this name.
    pub fn find_table(&self, name: &String) -> (r: Option<usize>)
        ensures
            match r {
                Some(i) => first_index(table_names(self@), name@) == Some(i as int) && i
                    < self@.len(),
                None => first_index(table_names(self@), name@) is None,
            },
    {
        let ghost names = table_names(self@);
        let mut i: usize = 0;
        assert(names.take(0) =~= Seq::<Seq<char>>::empty());
        while i < self.tables.len()
            invariant
                i <= self.tables.len(),
                names == table_names(self@),
                first_index(names.take(i as int), name@) is None,
            decreases self.tables.len() - i,
        {
            proof {
                assert(names.take(i + 1).drop_last() =~= names.take(i as int));
                assert(names.take(i + 1).last() == self.tables[i as int].name@);
                lemma_first_index_prefix(names, name@, i + 1);
            }
            if self.tables[i].name == *name {
                return Some(i);
            }
            i = i + 1;
        }
        assert(names.take(self.tables.len() as int) =~= names);
        None
    }

    /// Checks that a table of this name and these columns may join the
    /// catalog: the name is free, and the columns are valid.
    pub fn check_new_table(
        &self,
        name: &String,
        columns: &Vec<Column>,
    ) -> (r: Result<(), QueryError>)
        ensures
            r == new_table_check(self@, name@, columns.deep_view()),
    {
        if self.find_table(name).is_some() {
            return Err(QueryError::DuplicateTable);
        }
        if columns.len() == 0 {
            return Err(QueryError::SchemaError(SchemaError::EmptyColumnList));
        }
        if !check_names_unique(columns) {
            return Err(QueryError::SchemaError(SchemaError::DuplicateColumn));
        }
        Ok(())
    }

    /// Registers a new table. `namespace_exists` says whether the page store
    /// already holds a namespace of this name. On an error the catalog is as
    /// it was.
    pub fn create_table(
        &mut self,
        name: &String,
        columns: Vec<Column>,
        namespace_exists: bool,
    ) -> (r: Result<(), QueryError>)
        ensures
            r == create_table_check(old(self)@, name@, columns.deep_view(), namespace_exists),
            final(self)@ == if r is Ok {
                old(self)@.push(Schema { name: name@, columns: columns.deep_view() })
            } else {
                old(self)@
            },
    {
        match self.check_new_table(name, &columns) {
            Ok(()) => {},
            Err(e) => {
                return Err(e);
            },
        }
        if namespace_exists {
            return Err(QueryError::SchemaError(SchemaError::TableAlreadyExists));
        }
        proof {
            use_type_invariant(&*self);
            lemma_first_index(table_names(self@), name@);
        }
        let ghost before = self.tables.deep_view();
        let mut tables: Vec<Table> = Vec::new();
        assert(tables.deep_view() =~= Seq::<Schema>::empty());
        core::mem::swap(&mut self.tables, &mut tables);
        tables.push(Table::new(name.clone(), columns));
        proof {
            let after = tables.deep_view();
            assert(after =~= before.push(Schema { name: name@, columns: columns.deep_view() }));
            assert forall|i: int, j: int| 0 <= i < j < after.len() implies (#[trigger] after[i]).name
                != (#[trigger] after[j]).name by {
                if j == before.len() {
                    assert(table_names(before)[i] == before[i].name);
                }
            }
        }
        core::mem::swap(&mut self.tables, &mut tables);
        Ok(())
    }

    /// Inserts a row into the table at this position of the catalog, as
    /// `Table::insert_row` does, and passes the table's error on inside a
    /// `QueryError`. A position that holds no table is an unknown table.
    pub fn insert_row(
        &self,
        table: usize,
        row: Vec<ColumnValue>,
        page_sizes: &Vec<u64>,
    ) -> (r: Result<PageWrite, QueryError>)
        ensures
            result_view(r) == database_insert_spec(
                self@,
                table as int,
                row.deep_view(),
                page_sizes@,
            ),
    {
        if table >= self.tables.len() {
            return Err(QueryError::UnknownTable);
        }
        match self.tables[table].insert_row(row, page_sizes) {
            Ok(write) => Ok(write),
            Err(e) => Err(QueryError::InsertRowError(e)),
        }
    }

    /// Scans the table at this position of the catalog, as `Table::select`
    /// does, and returns the values as the result of a select; the table's
    /// error is passed on inside a `QueryError`. A position that holds no
    /// table is an unknown table.
    pub fn select(
        &self,
        table: usize,
        names: &Vec<String>,
        pages: &Vec<Page>,
    ) -> (r: Result<QueryResult, QueryError>)
        ensures
            match r {
                Ok(QueryResult::RowsProjected(values)) => table < self@.len() && select_spec(
                    self@[table as int].columns,
                    names.deep_view(),
                    page_contents(pages@),
                ) == Ok::<Seq<Value>, SelectFailure>(values.deep_view()),
                Ok(_) => false,
                Err(QueryError::SelectRowError(e)) => table < self@.len() && select_spec(
                    self@[table as int].columns,
                    names.deep_view(),
                    page_contents(pages@),
                ) == Err::<Seq<Value>, SelectFailure>(e@),
                Err(QueryError::UnknownTable) => table >= self@.len(),
                Err(_) => false,
            },
    {
        if table >= self.tables.len() {
            return Err(QueryError::UnknownTable);
        }
        match self.tables[table].select(names, pages) {
            Ok(values) => Ok(QueryResult::RowsProjected(values)),
            Err(e) => Err(QueryError::SelectRowError(e)),
        }
    }

    /// Resolves a statement against the catalog: checks it, and says which
    /// storage operation carries it out. The catalog is not changed.
    pub fn query(&self, statement: &Statement) -> (r: Result<Operation, QueryError>)
        ensures
            result_view(r) == query_spec(self@, *statement),
    {
        match statement {
            Statement::Select { from, projection, filtered } => {
                let names = match select_columns(from, projection, *filtered) {
                    Some(names) => names,
                    None => {
                        return Err(QueryError::UnsupportedQueryShape);
                    },
                };
                let table_name = match &from[0] {
                    TableRef::Named(name) => name,
                    TableRef::Other => {
                        return Err(QueryError::UnsupportedQueryShape);
                    },
                };
                let t = match self.find_table(table_name) {
                    Some(t) => t,
                    None => {
                        return Err(QueryError::UnknownTable);
                    },
                };
                match self.tables[t].resolve(&names) {
                    Ok(_) => Ok(Operation::Select { table: t, names }),
                    Err(_) => Err(QueryError::UnknownColumn),
                }
            },
            Statement::Insert { table_name, columns, rows } => {
                let t = match self.find_table(table_name) {
                    Some(t) => t,
                    None => {
                        return Err(QueryError::UnknownTable);
                    },
                };
                if !names_all_columns(columns, &self.tables[t].columns) {
                    return Err(QueryError::InsertMustSpecifyAllColumns);
                }
                if rows.len() != 1 {
                    return Err(QueryError::UnsupportedQueryShape);
                }
                match convert_literals(&rows[0]) {
                    Ok(row) => Ok(Operation::Insert { table: t, row }),
                    Err(e) => Err(e),
                }
            },
            Statement::CreateTable { name, column_defs } => {
                let columns = match define_columns(column_defs) {
                    Some(columns) => columns,
                    None => {
                        return Err(QueryError::SchemaError(SchemaError::UnsupportedType));
                    },
                };
                match self.check_new_table(name, &columns) {
                    Ok(()) => Ok(Operation::CreateTable { name: name.clone(), columns }),
                    Err(e) => Err(e),
                }
            },
            Statement::Other => Err(QueryError::UnsupportedOperation),
        }
    }
}

} // verus!
