//! What a table does with its rows: take one in, and scan them back.

use crate::codec::{
    decode_all, decode_spec, encode, encode_spec, estimated_size, estimated_size_spec,
    row_matches,
};
use crate::errors::{CodecError, InsertRowError, SchemaError, SelectFailure, SelectRowError};
use crate::page::{
    apply_write, heap_insert, tail_size, target_page, target_page_spec, Insert, Page, PageWrite,
    PageWriteSpec, PAGE_SIZE,
};
use crate::schema::{
    column_names, first_index, lemma_first_index, lemma_first_index_prefix, result_view, Column,
    ColumnSpec, ColumnValue, Table, Value,
};
use crate::statement::{projection_names, select_columns, supported_select, Statement};
use vstd::prelude::*;

verus! {

/// Whether no two of these columns share a name.
pub open spec fn names_unique(columns: Seq<ColumnSpec>) -> bool {
    forall|i: int, j: int|
        0 <= i < j < columns.len() ==> (#[trigger] columns[i]).name != (#[trigger] columns[j]).name
}

/// Whether these columns can make a table: at least one, no name twice.
pub open spec fn valid_columns(columns: Seq<ColumnSpec>) -> bool {
    columns.len() > 0 && names_unique(columns)
}

/// The outcome of creating a table of these columns.
pub open spec fn create_check(
    columns: Seq<ColumnSpec>,
    namespace_exists: bool,
) -> Result<(), SchemaError> {
    if columns.len() == 0 {
        Err(SchemaError::EmptyColumnList)
    } else if !names_unique(columns) {
        Err(SchemaError::DuplicateColumn)
    } else if namespace_exists {
        Err(SchemaError::TableAlreadyExists)
    } else {
        Ok(())
    }
}

/// The first position at which a value of the row is not of its column's
/// type, for a row with no more values than there are columns.
pub open spec fn mismatch_index(columns: Seq<ColumnSpec>, row: Seq<Value>) -> Option<int>
    recommends
        row.len() <= columns.len(),
    decreases row.len(),
{
    if row.len() == 0 {
        None
    } else {
        match mismatch_index(columns, row.drop_last()) {
            Some(i) => Some(i),
            None => if row.last().type_of() != columns[row.len() - 1]._type {
                Some(row.len() - 1)
            } else {
                None
            },
        }
    }
}

/// The outcome of checking a row against columns: first its length, then
/// each value's type, in order.
pub open spec fn row_check(
    columns: Seq<ColumnSpec>,
    row: Seq<Value>,
) -> Result<(), InsertRowError> {
    if row.len() != columns.len() {
        Err(InsertRowError::ArityMismatch)
    } else {
        match mismatch_index(columns, row) {
            Some(i) => Err(InsertRowError::TypeMismatch(i as usize)),
            None => Ok(()),
        }
    }
}

/// The outcome of inserting a row into a table of these columns whose pages
/// have these sizes: the write that inserts it, or why there is none.
pub open spec fn insert_spec(
    columns: Seq<ColumnSpec>,
    row: Seq<Value>,
    page_sizes: Seq<u64>,
) -> Result<PageWriteSpec, InsertRowError> {
    match row_check(columns, row) {
        Err(e) => Err(e),
        Ok(()) => if estimated_size_spec(row) > PAGE_SIZE {
            Err(InsertRowError::RowTooLarge)
        } else {
            Ok(
                PageWriteSpec {
                    page_number: target_page_spec(
                        page_sizes.len(),
                        tail_size(page_sizes),
                        estimated_size_spec(row) as int,
                    ) as int,
                    bytes: encode_spec(row),
                },
            )
        },
    }
}

/// The position of the first column of this name, if there is one.
pub open spec fn column_index(columns: Seq<ColumnSpec>, name: Seq<char>) -> Option<int> {
    first_index(column_names(columns), name)
}

/// The position in `names` of the first name that no column has, if any.
pub open spec fn first_unknown(columns: Seq<ColumnSpec>, names: Seq<Seq<char>>) -> Option<int>
    decreases names.len(),
{
    if names.len() == 0 {
        None
    } else {
        match first_unknown(columns, names.drop_last()) {
            Some(j) => Some(j),
            None => if column_index(columns, names.last()) is None {
                Some(names.len() - 1)
            } else {
                None
            },
        }
    }
}

/// The column positions that these names stand for, in the order asked.
pub open spec fn resolved(columns: Seq<ColumnSpec>, names: Seq<Seq<char>>) -> Seq<int> {
    Seq::new(names.len(), |j: int| column_index(columns, names[j])->0)
}

/// The values of one row at these positions, in the order of the positions.
pub open spec fn project_row(row: Seq<Value>, indexes: Seq<int>) -> Seq<Value> {
    Seq::new(indexes.len(), |j: int| row[indexes[j]])
}

/// The values of every row at these positions, row after row, as one flat
/// sequence.
pub open spec fn project_rows(rows: Seq<Seq<Value>>, indexes: Seq<int>) -> Seq<Value>
    decreases rows.len(),
{
    if rows.len() == 0 {
        Seq::empty()
    } else {
        project_rows(rows.drop_last(), indexes) + project_row(rows.last(), indexes)
    }
}

/// What each of these pages holds, in order.
pub open spec fn page_contents(pages: Seq<Page>) -> Seq<Seq<u8>> {
    Seq::new(pages.len(), |i: int| pages[i].content@)
}

/// The rows that these pages hold, page after page; the first page that
/// cannot be decoded decides the error.
pub open spec fn decode_pages(
    pages: Seq<Seq<u8>>,
    columns: Seq<ColumnSpec>,
) -> Result<Seq<Seq<Value>>, CodecError>
    decreases pages.len(),
{
    if pages.len() == 0 {
        Ok(Seq::empty())
    } else {
        match decode_pages(pages.drop_last(), columns) {
            Err(e) => Err(e),
            Ok(rows) => match decode_spec(pages.last(), columns) {
                Err(e) => Err(e),
                Ok(more) => Ok(rows + more),
            },
        }
    }
}

/// The outcome of scanning pages of a table of these columns for these
/// names: a bound check on the number of names, then the names resolved in
/// the order asked, then the pages decoded in order, then the projection.
pub open spec fn select_spec(
    columns: Seq<ColumnSpec>,
    names: Seq<Seq<char>>,
    pages: Seq<Seq<u8>>,
) -> Result<Seq<Value>, SelectFailure> {
    if names.len() > columns.len() {
        Err(SelectFailure::TooManyColumns)
    } else {
        match first_unknown(columns, names) {
            Some(j) => Err(SelectFailure::UnknownColumn(names[j])),
            None => match decode_pages(pages, columns) {
                Err(e) => Err(SelectFailure::Codec(e)),
                Ok(rows) => Ok(project_rows(rows, resolved(columns, names))),
            },
        }
    }
}

/// The outcome of a statement put to one table: a select of the supported
/// shape is a scan for the names of its projection list, whatever table it
/// names; anything else is refused.
pub open spec fn table_query_spec(
    columns: Seq<ColumnSpec>,
    statement: Statement,
    pages: Seq<Seq<u8>>,
) -> Result<Seq<Value>, SelectFailure> {
    match statement {
        Statement::Select { from, projection, filtered } => if supported_select(
            from@,
            projection@,
            filtered,
        ) {
            select_spec(columns, projection_names(projection@), pages)
        } else {
            Err(SelectFailure::UnsupportedQueryShape)
        },
        _ => Err(SelectFailure::UnsupportedOperation),
    }
}

/// The model of a scan's result.
pub open spec fn select_view(
    r: Result<Vec<ColumnValue>, SelectRowError>,
) -> Result<Seq<Value>, SelectFailure> {
    match r {
        Ok(values) => Ok(values.deep_view()),
        Err(e) => Err(e@),
    }
}

/// These positions as integers.
pub open spec fn positions(indexes: Seq<usize>) -> Seq<int> {
    Seq::new(indexes.len(), |j: int| indexes[j] as int)
}

/// A mismatch among the first `k` values is the first mismatch of the row.
pub proof fn lemma_mismatch_index_prefix(columns: Seq<ColumnSpec>, row: Seq<Value>, k: int)
    requires
        0 <= k <= row.len(),
    ensures
        mismatch_index(columns, row.take(k)) is Some ==> mismatch_index(columns, row)
            == mismatch_index(columns, row.take(k)),
    decreases row.len(),
{
    if k == row.len() {
        assert(row.take(k) =~= row);
    } else {
        lemma_mismatch_index_prefix(columns, row.drop_last(), k);
        assert(row.drop_last().take(k) =~= row.take(k));
    }
}

/// What `mismatch_index` finds: the first value that is not of its column's
/// type, or that every value is.
pub proof fn lemma_mismatch_index(columns: Seq<ColumnSpec>, row: Seq<Value>)
    ensures
        match mismatch_index(columns, row) {
            Some(i) => 0 <= i < row.len() && row[i].type_of() != columns[i]._type && forall|j: int|
                0 <= j < i ==> (#[trigger] row[j]).type_of() == columns[j]._type,
            None => forall|j: int|
                0 <= j < row.len() ==> (#[trigger] row[j]).type_of() == columns[j]._type,
        },
    decreases row.len(),
{
    if row.len() > 0 {
        let front = row.drop_last();
        lemma_mismatch_index(columns, front);
        assert(forall|j: int| 0 <= j < front.len() ==> front[j] == row[j]);
    }
}

/// An unknown name among the first `k` is the first unknown name of all.
pub proof fn lemma_first_unknown_prefix(columns: Seq<ColumnSpec>, names: Seq<Seq<char>>, k: int)
    requires
        0 <= k <= names.len(),
    ensures
        first_unknown(columns, names.take(k)) is Some ==> first_unknown(columns, names)
            == first_unknown(columns, names.take(k)),
    decreases names.len(),
{
    if k == names.len() {
        assert(names.take(k) =~= names);
    } else {
        lemma_first_unknown_prefix(columns, names.drop_last(), k);
        assert(names.drop_last().take(k) =~= names.take(k));
    }
}

/// A page among the first `k` that cannot be decoded decides for all.
pub proof fn lemma_decode_pages_error(pages: Seq<Seq<u8>>, columns: Seq<ColumnSpec>, k: int)
    requires
        0 <= k <= pages.len(),
    ensures
        decode_pages(pages.take(k), columns) is Err ==> decode_pages(pages, columns)
            == decode_pages(pages.take(k), columns),
    decreases pages.len(),
{
    if k == pages.len() {
        assert(pages.take(k) =~= pages);
    } else {
        lemma_decode_pages_error(pages.drop_last(), columns, k);
        assert(pages.drop_last().take(k) =~= pages.take(k));
    }
}

/// A projection holds one value for every row and every position asked for,
/// and the value of row `r` at the `j`-th position asked for stands at place
/// `r * k + j`, where `k` positions are asked for: rows in their order, and
/// within a row the order asked.
pub proof fn lemma_projection_order(rows: Seq<Seq<Value>>, indexes: Seq<int>, r: int, j: int)
    requires
        0 <= r < rows.len(),
        0 <= j < indexes.len(),
    ensures
        project_rows(rows, indexes).len() == rows.len() * indexes.len(),
        0 <= r * indexes.len() + j < project_rows(rows, indexes).len(),
        project_rows(rows, indexes)[r * indexes.len() + j] == rows[r][indexes[j]],
    decreases rows.len(),
{
    let k = indexes.len() as int;
    let n = rows.len() as int;
    let front = rows.drop_last();
    lemma_project_rows_len(rows, indexes);
    lemma_project_rows_len(front, indexes);
    assert((n - 1) * k + k == n * k) by (nonlinear_arith);
    if r == n - 1 {
        assert(project_rows(rows, indexes)[(n - 1) * k + j] == project_row(rows.last(), indexes)[j]);
    } else {
        lemma_projection_order(front, indexes, r, j);
        assert(r * k + j < (n - 1) * k) by (nonlinear_arith)
            requires
                0 <= r < n - 1,
                0 <= j < k,
        ;
        assert(0 <= r * k + j) by (nonlinear_arith)
            requires
                0 <= r,
                0 <= j,
                0 <= k,
        ;
        assert(front[r] == rows[r]);
    }
    assert(0 <= r * k + j < n * k) by (nonlinear_arith)
        requires
            0 <= r < n,
            0 <= j < k,
    ;
}

/// A projection holds one value for every row and every position asked for.
pub proof fn lemma_project_rows_len(rows: Seq<Seq<Value>>, indexes: Seq<int>)
    ensures
        project_rows(rows, indexes).len() == rows.len() * indexes.len(),
    decreases rows.len(),
{
    let k = indexes.len() as int;
    let n = rows.len() as int;
    if n > 0 {
        lemma_project_rows_len(rows.drop_last(), indexes);
        assert((n - 1) * k + k == n * k) by (nonlinear_arith);
    } else {
        assert(0 * k == 0) by (nonlinear_arith);
    }
}

/// A scan that succeeds returns, for every row the pages hold and every
/// name asked for, the row's value in the column of that name: at place
/// `r * k + j` for row `r` and the `j`-th of `k` names, so in the order asked
/// and not in the order of the table's columns.
pub proof fn lemma_select_order(
    columns: Seq<ColumnSpec>,
    names: Seq<Seq<char>>,
    pages: Seq<Seq<u8>>,
    r: int,
    j: int,
)
    requires
        select_spec(columns, names, pages) is Ok,
        0 <= r < decode_pages(pages, columns)->Ok_0.len(),
        0 <= j < names.len(),
    ensures
        decode_pages(pages, columns) is Ok,
        column_index(columns, names[j]) is Some,
        select_spec(columns, names, pages)->Ok_0.len() == decode_pages(pages, columns)->Ok_0.len()
            * names.len(),
        0 <= r * names.len() + j < select_spec(columns, names, pages)->Ok_0.len(),
        select_spec(columns, names, pages)->Ok_0[r * names.len() + j] == decode_pages(
            pages,
            columns,
        )->Ok_0[r][column_index(columns, names[j])->0],
{
    let rows = decode_pages(pages, columns)->Ok_0;
    lemma_projection_order(rows, resolved(columns, names), r, j);
    lemma_first_unknown(columns, names);
}

/// What `first_unknown` finds: the first name that no column has, or that
/// every name is the name of a column.
pub proof fn lemma_first_unknown(columns: Seq<ColumnSpec>, names: Seq<Seq<char>>)
    ensures
        match first_unknown(columns, names) {
            Some(j) => 0 <= j < names.len() && column_index(columns, names[j]) is None
                && forall|k: int| 0 <= k < j ==> column_index(columns, #[trigger] names[k]) is Some,
            None => forall|k: int|
                0 <= k < names.len() ==> column_index(columns, #[trigger] names[k]) is Some,
        },
    decreases names.len(),
{
    if names.len() > 0 {
        let front = names.drop_last();
        lemma_first_unknown(columns, front);
        assert(forall|k: int| 0 <= k < front.len() ==> front[k] == names[k]);
    }
}

/// A scan that asks for a name that no column has fails, whatever the pages
/// hold: with that name where it is the first such name and no more names
/// are asked for than there are columns.
pub proof fn lemma_unknown_column_fails(
    columns: Seq<ColumnSpec>,
    names: Seq<Seq<char>>,
    pages: Seq<Seq<u8>>,
    j: int,
)
    requires
        0 <= j < names.len(),
        column_index(columns, names[j]) is None,
    ensures
        select_spec(columns, names, pages) is Err,
        names.len() <= columns.len() ==> select_spec(columns, names, pages)->Err_0
            is UnknownColumn,
        names.len() <= columns.len() && (forall|k: int|
            0 <= k < j ==> column_index(columns, #[trigger] names[k]) is Some) ==> select_spec(
            columns,
            names,
            pages,
        ) == Err::<Seq<Value>, SelectFailure>(SelectFailure::UnknownColumn(names[j])),
{
    lemma_first_unknown(columns, names);
}

/// Whether these are the sizes of the pages of this heap, page by page.
pub open spec fn sizes_of(page_sizes: Seq<u64>, pages: Seq<Seq<u8>>) -> bool {
    &&& page_sizes.len() == pages.len()
    &&& forall|i: int| 0 <= i < pages.len() ==> (#[trigger] page_sizes[i]) == pages[i].len()
}

/// The insert that a row comes to at the page store: its estimated size and
/// its encoded bytes.
pub open spec fn row_insert(row: Seq<Value>) -> Insert {
    Insert { estimate: estimated_size_spec(row), bytes: encode_spec(row) }
}

/// The write that inserts a row, carried out on the heap whose page sizes
/// were given, leaves the heap that the packing rule describes: the row's
/// bytes whole at the end of the last page while the row still fits it, and
/// in a new page after it otherwise.
pub proof fn lemma_insert_packs(
    columns: Seq<ColumnSpec>,
    row: Seq<Value>,
    page_sizes: Seq<u64>,
    pages: Seq<Seq<u8>>,
)
    requires
        sizes_of(page_sizes, pages),
        insert_spec(columns, row, page_sizes) is Ok,
    ensures
        apply_write(pages, insert_spec(columns, row, page_sizes)->Ok_0) == heap_insert(
            pages,
            row_insert(row),
        ),
{
}

/// A row that does not fit the columns, or whose estimated size alone
/// exceeds a page, is refused whatever the page store holds: there is no
/// write, so nothing of the row reaches a page.
pub proof fn lemma_refused_rows(columns: Seq<ColumnSpec>, row: Seq<Value>, page_sizes: Seq<u64>)
    ensures
        insert_spec(columns, row, page_sizes) is Ok <==> row_matches(columns, row)
            && estimated_size_spec(row) <= PAGE_SIZE,
        row.len() != columns.len() ==> insert_spec(columns, row, page_sizes) == Err::<
            PageWriteSpec,
            InsertRowError,
        >(InsertRowError::ArityMismatch),
        row_matches(columns, row) && estimated_size_spec(row) > PAGE_SIZE ==> insert_spec(
            columns,
            row,
            page_sizes,
        ) == Err::<PageWriteSpec, InsertRowError>(InsertRowError::RowTooLarge),
{
    lemma_mismatch_index(columns, row);
}

/// Whether these columns hold no name twice.
pub fn check_names_unique(columns: &Vec<Column>) -> (unique: bool)
    ensures
        unique == names_unique(columns.deep_view()),
{
    let ghost specs = columns.deep_view();
    let mut j: usize = 0;
    while j < columns.len()
        invariant
            j <= columns.len(),
            specs == columns.deep_view(),
            forall|a: int, b: int|
                0 <= a < b < j ==> (#[trigger] specs[a]).name != (#[trigger] specs[b]).name,
        decreases columns.len() - j,
    {
        let mut i: usize = 0;
        while i < j
            invariant
                i <= j < columns.len(),
                specs == columns.deep_view(),
                forall|a: int| 0 <= a < i ==> (#[trigger] specs[a]).name != specs[j as int].name,
            decreases j - i,
        {
            if columns[i].name == columns[j].name {
                assert(specs[i as int].name == specs[j as int].name);
                return false;
            }
            i = i + 1;
        }
        j = j + 1;
    }
    true
}

/// Projects rows onto column positions: for every row in turn, its values at
/// the positions, in the order of the positions, all in one flat sequence.
/// Every position is to lie within every row.
pub fn project(rows: &Vec<Vec<ColumnValue>>, indexes: &Vec<usize>) -> (values: Vec<ColumnValue>)
    requires
        forall|r: int, j: int|
            0 <= r < rows.len() && 0 <= j < indexes.len() ==> (#[trigger] indexes[j]) < (
            #[trigger] rows[r]).len(),
    ensures
        values.deep_view() == project_rows(rows.deep_view(), positions(indexes@)),
{
    let ghost all = rows.deep_view();
    let ghost at = positions(indexes@);
    let mut values: Vec<ColumnValue> = Vec::new();
    let mut r: usize = 0;
    assert(all.take(0) =~= Seq::<Seq<Value>>::empty());
    assert(values.deep_view() =~= Seq::<Value>::empty());
    while r < rows.len()
        invariant
            r <= rows.len(),
            all == rows.deep_view(),
            at == positions(indexes@),
            forall|r: int, j: int|
                0 <= r < rows.len() && 0 <= j < indexes.len() ==> (#[trigger] indexes[j]) < (
                #[trigger] rows[r]).len(),
            values.deep_view() == project_rows(all.take(r as int), at),
        decreases rows.len() - r,
    {
        let ghost done = values.deep_view();
        let row = &rows[r];
        let mut j: usize = 0;
        while j < indexes.len()
            invariant
                j <= indexes.len(),
                r < rows.len(),
                row == rows[r as int],
                at == positions(indexes@),
                forall|k: int| 0 <= k < indexes.len() ==> (#[trigger] indexes[k]) < row.len(),
                values.deep_view() == done + project_row(row.deep_view(), at).take(j as int),
            decreases indexes.len() - j,
        {
            let ghost before = values.deep_view();
            values.push(row[indexes[j]].duplicate());
            assert(values.deep_view() =~= before.push(row[indexes[j as int] as int]@));
            assert(values.deep_view() =~= done + project_row(row.deep_view(), at).take(j + 1));
            j = j + 1;
        }
        proof {
            assert(project_row(row.deep_view(), at).take(indexes.len() as int) =~= project_row(
                row.deep_view(),
                at,
            ));
            assert(all.take(r + 1).drop_last() =~= all.take(r as int));
            assert(all.take(r + 1).last() == row.deep_view());
        }
        r = r + 1;
    }
    assert(all.take(rows.len() as int) =~= all);
    values
}

impl Table {
    /// Checks that this table can be created: it has at least one column,
    /// no column name occurs twice, and its namespace is free.
    /// `namespace_exists` says whether the page store already holds a
    /// namespace of this name.
    pub fn check(&self, namespace_exists: bool) -> (r: Result<(), SchemaError>)
        ensures
            r == create_check(self.columns.deep_view(), namespace_exists),
    {
        if self.columns.len() == 0 {
            return Err(SchemaError::EmptyColumnList);
        }
        if !check_names_unique(&self.columns) {
            return Err(SchemaError::DuplicateColumn);
        }
        if namespace_exists {
            return Err(SchemaError::TableAlreadyExists);
        }
        Ok(())
    }

    /// Creates a table after checking it as `check` does.
    pub fn create(
        name: String,
        columns: Vec<Column>,
        namespace_exists: bool,
    ) -> (r: Result<Table, SchemaError>)
        ensures
            match r {
                Ok(table) => create_check(columns.deep_view(), namespace_exists) is Ok
                    && table.name == name && table.columns == columns,
                Err(e) => create_check(columns.deep_view(), namespace_exists) is Err
                    && create_check(columns.deep_view(), namespace_exists)->Err_0 == e,
            },
    {
        let table = Table { name, columns };
        match table.check(namespace_exists) {
            Ok(()) => Ok(table),
            Err(e) => Err(e),
        }
    }

    /// Checks a row against the columns: first its length, then each value's
    /// type, in order.
    pub fn check_row(&self, row: &Vec<ColumnValue>) -> (r: Result<(), InsertRowError>)
        ensures
            r == row_check(self.columns.deep_view(), row.deep_view()),
            r is Ok <==> row_matches(self.columns.deep_view(), row.deep_view()),
    {
        let ghost specs = self.columns.deep_view();
        let ghost values = row.deep_view();
        proof {
            lemma_mismatch_index(specs, values);
        }
        if row.len() != self.columns.len() {
            return Err(InsertRowError::ArityMismatch);
        }
        let mut i: usize = 0;
        assert(values.take(0) =~= Seq::<Value>::empty());
        while i < row.len()
            invariant
                i <= row.len() == self.columns.len(),
                specs == self.columns.deep_view(),
                values == row.deep_view(),
                mismatch_index(specs, values.take(i as int)) is None,
            decreases row.len() - i,
        {
            proof {
                assert(values.take(i + 1).drop_last() =~= values.take(i as int));
                assert(values.take(i + 1).last() == row[i as int]@);
                lemma_mismatch_index_prefix(specs, values, i + 1);
            }
            if row[i].type_of() != self.columns[i]._type {
                return Err(InsertRowError::TypeMismatch(i));
            }
            i = i + 1;
        }
        assert(values.take(row.len() as int) =~= values);
        Ok(())
    }

    /// Takes a row in: checks it, chooses its page and encodes it. What comes
    /// back is the one write that inserts the row; a row that is refused
    /// gives no write, so nothing of it reaches the page store. `page_sizes`
    /// holds the sizes in bytes of the table's pages, in page order.
    pub fn insert_row(
        &self,
        row: Vec<ColumnValue>,
        page_sizes: &Vec<u64>,
    ) -> (r: Result<PageWrite, InsertRowError>)
        ensures
            result_view(r) == insert_spec(self.columns.deep_view(), row.deep_view(), page_sizes@),
            r is Ok <==> row_matches(self.columns.deep_view(), row.deep_view())
                && estimated_size_spec(row.deep_view()) <= PAGE_SIZE,
    {
        match self.check_row(&row) {
            Ok(()) => {},
            Err(e) => {
                return Err(e);
            },
        }
        let estimate = estimated_size(&row);
        if estimate > PAGE_SIZE {
            return Err(InsertRowError::RowTooLarge);
        }
        let page_number = target_page(page_sizes, estimate);
        let bytes = encode(&row);
        Ok(PageWrite { page_number, bytes })
    }

    /// The position of the first column of this name.
    pub fn find_column(&self, name: &String) -> (r: Option<usize>)
        ensures
            match r {
                Some(i) => column_index(self.columns.deep_view(), name@) == Some(i as int),
                None => column_index(self.columns.deep_view(), name@) is None,
            },
    {
        let ghost names = column_names(self.columns.deep_view());
        let mut i: usize = 0;
        assert(names.take(0) =~= Seq::<Seq<char>>::empty());
        while i < self.columns.len()
            invariant
                i <= self.columns.len(),
                names == column_names(self.columns.deep_view()),
                first_index(names.take(i as int), name@) is None,
            decreases self.columns.len() - i,
        {
            proof {
                assert(names.take(i + 1).drop_last() =~= names.take(i as int));
                assert(names.take(i + 1).last() == self.columns[i as int].name@);
                lemma_first_index_prefix(names, name@, i + 1);
            }
            if self.columns[i].name == *name {
                return Some(i);
            }
            i = i + 1;
        }
        assert(names.take(self.columns.len() as int) =~= names);
        None
    }

    /// Resolves column names to positions, in the order asked; the first name
    /// that no column has comes back as the error, by its place in `names`.
    pub fn resolve(&self, names: &Vec<String>) -> (r: Result<Vec<usize>, usize>)
        ensures
            match r {
                Ok(indexes) => first_unknown(self.columns.deep_view(), names.deep_view()) is None
                    && positions(indexes@) == resolved(self.columns.deep_view(), names.deep_view())
                    && forall|j: int|
                    0 <= j < indexes.len() ==> (#[trigger] indexes[j]) < self.columns.len(),
                Err(j) => first_unknown(self.columns.deep_view(), names.deep_view()) == Some(
                    j as int,
                ) && j < names.len(),
            },
    {
        let ghost specs = self.columns.deep_view();
        let ghost asked = names.deep_view();
        let mut indexes: Vec<usize> = Vec::new();
        let mut j: usize = 0;
        assert(asked.take(0) =~= Seq::<Seq<char>>::empty());
        while j < names.len()
            invariant
                j <= names.len(),
                specs == self.columns.deep_view(),
                asked == names.deep_view(),
                indexes.len() == j,
                first_unknown(specs, asked.take(j as int)) is None,
                forall|k: int|
                    0 <= k < j ==> column_index(specs, asked[k]) == Some(
                        (#[trigger] indexes[k]) as int,
                    ),
                forall|k: int| 0 <= k < j ==> (#[trigger] indexes[k]) < self.columns.len(),
            decreases names.len() - j,
        {
            proof {
                assert(asked.take(j + 1).drop_last() =~= asked.take(j as int));
                assert(asked.take(j + 1).last() == names[j as int]@);
                lemma_first_unknown_prefix(specs, asked, j + 1);
                lemma_first_index(column_names(specs), asked[j as int]);
            }
            match self.find_column(&names[j]) {
                Some(i) => {
                    indexes.push(i);
                },
                None => {
                    return Err(j);
                },
            }
            j = j + 1;
        }
        assert(asked.take(names.len() as int) =~= asked);
        assert(positions(indexes@) =~= resolved(specs, asked));
        Ok(indexes)
    }

    /// Decodes the rows of these pages, page after page.
    pub fn read_rows(&self, pages: &Vec<Page>) -> (r: Result<Vec<Vec<ColumnValue>>, CodecError>)
        ensures
            result_view(r) == decode_pages(page_contents(pages@), self.columns.deep_view()),
            r matches Ok(rows) ==> forall|i: int|
                0 <= i < rows.len() ==> (#[trigger] rows[i]).len() == self.columns.len(),
    {
        let ghost contents = page_contents(pages@);
        let ghost specs = self.columns.deep_view();
        let mut rows: Vec<Vec<ColumnValue>> = Vec::new();
        let mut i: usize = 0;
        assert(contents.take(0) =~= Seq::<Seq<u8>>::empty());
        assert(rows.deep_view() =~= Seq::<Seq<Value>>::empty());
        while i < pages.len()
            invariant
                i <= pages.len(),
                contents == page_contents(pages@),
                specs == self.columns.deep_view(),
                decode_pages(contents.take(i as int), specs) == Ok::<Seq<Seq<Value>>, CodecError>(
                    rows.deep_view(),
                ),
                forall|k: int|
                    0 <= k < rows.len() ==> (#[trigger] rows[k]).len() == self.columns.len(),
            decreases pages.len() - i,
        {
            let ghost before = rows.deep_view();
            proof {
                assert(contents.take(i + 1).drop_last() =~= contents.take(i as int));
                assert(contents.take(i + 1).last() == pages[i as int].content@);
                lemma_decode_pages_error(contents, specs, i + 1);
            }
            match decode_all(&pages[i].content, &self.columns) {
                Ok(mut more) => {
                    let ghost added = more.deep_view();
                    rows.append(&mut more);
                    assert(rows.deep_view() =~= before + added);
                },
                Err(e) => {
                    return Err(e);
                },
            }
            i = i + 1;
        }
        assert(contents.take(pages.len() as int) =~= contents);
        Ok(rows)
    }

    /// Scans the table: reads the pages in the order given, which is to be
    /// page order, decodes their rows, and returns for every row in turn the
    /// values of the columns asked for, in the order asked, as one flat
    /// sequence.
    pub fn select(
        &self,
        columns: &Vec<String>,
        pages: &Vec<Page>,
    ) -> (r: Result<Vec<ColumnValue>, SelectRowError>)
        ensures
            select_view(r) == select_spec(
                self.columns.deep_view(),
                columns.deep_view(),
                page_contents(pages@),
            ),
    {
        if columns.len() > self.columns.len() {
            return Err(SelectRowError::TooManyColumns);
        }
        let indexes = match self.resolve(columns) {
            Ok(indexes) => indexes,
            Err(j) => {
                return Err(SelectRowError::UnknownColumn(columns[j].clone()));
            },
        };
        let rows = match self.read_rows(pages) {
            Ok(rows) => rows,
            Err(e) => {
                return Err(SelectRowError::Codec(e));
            },
        };
        Ok(project(&rows, &indexes))
    }

    /// Answers a statement put to this table alone: a select of the
    /// supported shape is a scan for the columns it names; the table the
    /// statement names is not looked at.
    pub fn query(
        &self,
        statement: &Statement,
        pages: &Vec<Page>,
    ) -> (r: Result<Vec<ColumnValue>, SelectRowError>)
        ensures
            select_view(r) == table_query_spec(
                self.columns.deep_view(),
                *statement,
                page_contents(pages@),
            ),
    {
        match statement {
            Statement::Select { from, projection, filtered } => {
                match select_columns(from, projection, *filtered) {
                    Some(names) => self.select(&names, pages),
                    None => Err(SelectRowError::UnsupportedQueryShape),
                }
            },
            _ => Err(SelectRowError::UnsupportedOperation),
        }
    }
}

} // verus!
