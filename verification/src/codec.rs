//! The row codec: a row is written as one CSV record, an `Int` as its decimal
//! text and a `Str` as it is, and read back field by field under the table's
//! column types.

use crate::decimal::{decimal_text, format_i64, lemma_decimal_round_trip, parse_i64, parse_i64_spec};
use crate::errors::CodecError;
use crate::schema::{result_view, Column, ColumnSpec, ColumnType, ColumnValue, Value};
use vstd::prelude::*;

verus! {

/// The error type of the `csv` crate.
#[verifier::external_type_specification]
#[verifier::external_body]
pub struct ExCsvError(csv::Error);

/// The bytes that the `csv` crate's writer, in its default configuration,
/// writes for one record of these fields.
pub uninterp spec fn csv_record_bytes(fields: Seq<Seq<char>>) -> Seq<u8>;

/// The records that the `csv` crate's reader, configured to treat no record
/// as a header and otherwise left at its defaults, finds in these bytes;
/// `None` where it reports an error.
pub uninterp spec fn csv_records(bytes: Seq<u8>) -> Option<Seq<Seq<Seq<char>>>>;

/// Calls `csv::Writer::write_record` on a fresh writer over an in-memory
/// buffer and returns what was written. The contract only names the bytes:
/// they are a function of the fields. Writing into memory does not fail.
#[verifier::external_body]
fn write_record(fields: &Vec<String>) -> (bytes: Vec<u8>)
    ensures
        bytes@ == csv_record_bytes(fields.deep_view()),
{
    let mut writer = csv::WriterBuilder::new().from_writer(Vec::new());
    writer.write_record(fields).unwrap();
    writer.into_inner().unwrap()
}

/// Runs `csv::Reader::records` over the bytes, with `has_headers(false)`, and
/// collects the records, each as its fields. The contract only names the
/// outcome: the records, or the fact that the reader reported an error.
#[verifier::external_body]
fn read_records(bytes: &Vec<u8>) -> (r: Result<Vec<Vec<String>>, csv::Error>)
    ensures
        r matches Ok(records) ==> csv_records(bytes@) == Some(records.deep_view()),
        r is Err ==> csv_records(bytes@) is None,
{
    let mut reader = csv::ReaderBuilder::new().has_headers(false).from_reader(bytes.as_slice());
    reader.records().map(|r| r.map(|record| record.iter().map(String::from).collect())).collect()
}

/// The size in bytes that an `Int` adds to a row's estimate.
pub const INT_WIDTH: usize = 8;

/// The text a value is written as.
pub open spec fn field_of_value(value: Value) -> Seq<char> {
    match value {
        Value::Int(n) => decimal_text(n as int),
        Value::Str(s) => s,
    }
}

/// The fields a row is written as, one per value, in order.
pub open spec fn fields_of_row(row: Seq<Value>) -> Seq<Seq<char>> {
    Seq::new(row.len(), |i: int| field_of_value(row[i]))
}

/// The bytes a row is written as.
pub open spec fn encode_spec(row: Seq<Value>) -> Seq<u8> {
    csv_record_bytes(fields_of_row(row))
}

/// The value a field holds under a column type, if it holds one.
pub open spec fn value_of_field(field: Seq<char>, column_type: ColumnType) -> Option<Value> {
    match column_type {
        ColumnType::Int => match parse_i64_spec(field) {
            Some(n) => Some(Value::Int(n)),
            None => None,
        },
        ColumnType::Str => Some(Value::Str(field)),
    }
}

/// Whether every field of a record holds a value of its column's type.
pub open spec fn record_well_typed(record: Seq<Seq<char>>, columns: Seq<ColumnSpec>) -> bool
    recommends
        record.len() == columns.len(),
{
    forall|i: int|
        0 <= i < record.len() ==> (#[trigger] value_of_field(record[i], columns[i]._type)) is Some
}

/// The row a record holds under a table's columns.
pub open spec fn row_of_record(
    record: Seq<Seq<char>>,
    columns: Seq<ColumnSpec>,
) -> Result<Seq<Value>, CodecError> {
    if record.len() != columns.len() {
        Err(CodecError::MalformedRecord)
    } else if !record_well_typed(record, columns) {
        Err(CodecError::TypeMismatch)
    } else {
        Ok(Seq::new(record.len(), |i: int| value_of_field(record[i], columns[i]._type)->0))
    }
}

/// The rows that records hold, in order; the first record that holds none
/// decides the error.
pub open spec fn rows_of_records(
    records: Seq<Seq<Seq<char>>>,
    columns: Seq<ColumnSpec>,
) -> Result<Seq<Seq<Value>>, CodecError>
    decreases records.len(),
{
    if records.len() == 0 {
        Ok(Seq::empty())
    } else {
        match rows_of_records(records.drop_last(), columns) {
            Err(e) => Err(e),
            Ok(rows) => match row_of_record(records.last(), columns) {
                Err(e) => Err(e),
                Ok(row) => Ok(rows.push(row)),
            },
        }
    }
}

/// The rows that a page's bytes hold under a table's columns.
pub open spec fn decode_spec(
    bytes: Seq<u8>,
    columns: Seq<ColumnSpec>,
) -> Result<Seq<Seq<Value>>, CodecError> {
    match csv_records(bytes) {
        None => Err(CodecError::MalformedRecord),
        Some(records) => rows_of_records(records, columns),
    }
}

/// What one value adds to a row's estimated size: a fixed width for an
/// `Int`, the length in bytes of its text for a `Str`.
pub open spec fn value_size(value: Value) -> nat {
    match value {
        Value::Int(_) => INT_WIDTH as nat,
        Value::Str(s) => vstd::utf8::encode_utf8(s).len(),
    }
}

/// The estimated size of a row: the sum over its values.
pub open spec fn estimated_size_spec(row: Seq<Value>) -> nat
    decreases row.len(),
{
    if row.len() == 0 {
        0
    } else {
        estimated_size_spec(row.drop_last()) + value_size(row.last())
    }
}

/// Whether a row fits a table's columns: as many values as columns, each of
/// its column's type.
pub open spec fn row_matches(columns: Seq<ColumnSpec>, row: Seq<Value>) -> bool {
    &&& row.len() == columns.len()
    &&& forall|i: int| 0 <= i < row.len() ==> (#[trigger] row[i]).type_of() == columns[i]._type
}

/// The fields a row is written as.
pub fn row_fields(row: &Vec<ColumnValue>) -> (fields: Vec<String>)
    ensures
        fields.deep_view() == fields_of_row(row.deep_view()),
{
    let mut fields: Vec<String> = Vec::new();
    let mut i: usize = 0;
    while i < row.len()
        invariant
            i <= row.len(),
            fields.len() == i,
            forall|j: int| 0 <= j < i ==> (#[trigger] fields[j])@ == field_of_value(row[j]@),
        decreases row.len() - i,
    {
        let field = match &row[i] {
            ColumnValue::Int(n) => format_i64(*n),
            ColumnValue::Str(s) => s.clone(),
        };
        fields.push(field);
        i = i + 1;
    }
    assert(fields.deep_view() =~= fields_of_row(row.deep_view()));
    fields
}

/// Encodes a row as bytes that delimit themselves: one CSV record. A value
/// carries its own type, so the table's columns are not asked for.
pub fn encode(row: &Vec<ColumnValue>) -> (bytes: Vec<u8>)
    ensures
        bytes@ == encode_spec(row.deep_view()),
{
    let fields = row_fields(row);
    write_record(&fields)
}

/// Reads one record as a row of the table's column types.
pub fn record_row(
    record: &Vec<String>,
    columns: &Vec<Column>,
) -> (r: Result<Vec<ColumnValue>, CodecError>)
    ensures
        result_view(r) == row_of_record(record.deep_view(), columns.deep_view()),
        r matches Ok(row) ==> row.len() == columns.len(),
{
    if record.len() != columns.len() {
        return Err(CodecError::MalformedRecord);
    }
    let ghost fields = record.deep_view();
    let ghost specs = columns.deep_view();
    let mut row: Vec<ColumnValue> = Vec::new();
    let mut i: usize = 0;
    while i < record.len()
        invariant
            i <= record.len(),
            record.len() == columns.len(),
            fields == record.deep_view(),
            specs == columns.deep_view(),
            row.len() == i,
            forall|j: int|
                0 <= j < i ==> (#[trigger] value_of_field(fields[j], specs[j]._type)) == Some(
                    row[j]@,
                ),
        decreases record.len() - i,
    {
        let value = match columns[i]._type {
            ColumnType::Int => match parse_i64(record[i].as_str()) {
                Some(n) => ColumnValue::Int(n),
                None => {
                    assert(value_of_field(fields[i as int], specs[i as int]._type) is None);
                    return Err(CodecError::TypeMismatch);
                },
            },
            ColumnType::Str => ColumnValue::Str(record[i].clone()),
        };
        assert(value_of_field(fields[i as int], specs[i as int]._type) == Some(value@));
        row.push(value);
        i = i + 1;
    }
    assert(record_well_typed(fields, specs));
    assert(row.deep_view() =~= Seq::new(
        fields.len(),
        |i: int| value_of_field(fields[i], specs[i]._type)->0,
    ));
    Ok(row)
}

/// Reads records as rows of the table's column types, in order.
pub fn records_rows(
    records: &Vec<Vec<String>>,
    columns: &Vec<Column>,
) -> (r: Result<Vec<Vec<ColumnValue>>, CodecError>)
    ensures
        result_view(r) == rows_of_records(records.deep_view(), columns.deep_view()),
        r matches Ok(rows) ==> forall|i: int|
            0 <= i < rows.len() ==> (#[trigger] rows[i]).len() == columns.len(),
{
    let ghost all = records.deep_view();
    let ghost specs = columns.deep_view();
    let mut rows: Vec<Vec<ColumnValue>> = Vec::new();
    let mut i: usize = 0;
    assert(all.take(0) =~= Seq::<Seq<Seq<char>>>::empty());
    assert(rows.deep_view() =~= Seq::<Seq<Value>>::empty());
    while i < records.len()
        invariant
            i <= records.len(),
            all == records.deep_view(),
            specs == columns.deep_view(),
            rows_of_records(all.take(i as int), specs) == Ok::<Seq<Seq<Value>>, CodecError>(
                rows.deep_view(),
            ),
            forall|j: int| 0 <= j < rows.len() ==> (#[trigger] rows[j]).len() == columns.len(),
        decreases records.len() - i,
    {
        let ghost before = rows.deep_view();
        proof {
            assert(all.take(i + 1).drop_last() =~= all.take(i as int));
            assert(all.take(i + 1).last() == records[i as int].deep_view());
            lemma_rows_of_records_error(all, specs, i + 1);
        }
        match record_row(&records[i], columns) {
            Ok(row) => {
                rows.push(row);
                assert(rows.deep_view() =~= before.push(row.deep_view()));
            },
            Err(e) => {
                return Err(e);
            },
        }
        i = i + 1;
    }
    assert(all.take(records.len() as int) =~= all);
    Ok(rows)
}

/// An error among the first `k` records is the error of all of them.
pub proof fn lemma_rows_of_records_error(
    records: Seq<Seq<Seq<char>>>,
    columns: Seq<ColumnSpec>,
    k: int,
)
    requires
        0 <= k <= records.len(),
    ensures
        rows_of_records(records.take(k), columns) is Err ==> rows_of_records(records, columns)
            == rows_of_records(records.take(k), columns),
    decreases records.len(),
{
    if k == records.len() {
        assert(records.take(k) =~= records);
    } else {
        lemma_rows_of_records_error(records.drop_last(), columns, k);
        assert(records.drop_last().take(k) =~= records.take(k));
    }
}

/// Whether the `csv` reader finds in the bytes written for these fields the
/// one record of these fields. Nothing in this crate proves it of any fields:
/// it is a property of the `csv` crate.
pub open spec fn csv_reads_back(fields: Seq<Seq<char>>) -> bool {
    csv_records(csv_record_bytes(fields)) == Some(seq![fields])
}

/// The fields written for a row that fits the columns are read back, under
/// those columns, as that row: same values, same order.
pub proof fn lemma_fields_round_trip(columns: Seq<ColumnSpec>, row: Seq<Value>)
    requires
        row_matches(columns, row),
    ensures
        row_of_record(fields_of_row(row), columns) == Ok::<Seq<Value>, CodecError>(row),
{
    let record = fields_of_row(row);
    assert forall|i: int| 0 <= i < record.len() implies value_of_field(
        record[i],
        columns[i]._type,
    ) == Some(row[i]) by {
        assert(row[i].type_of() == columns[i]._type);
        match row[i] {
            Value::Int(n) => {
                lemma_decimal_round_trip(n);
            },
            Value::Str(_) => {},
        }
    }
    assert(record_well_typed(record, columns));
    assert(Seq::new(record.len(), |i: int| value_of_field(record[i], columns[i]._type)->0)
        =~= row);
}

/// Decoding the bytes that a row was encoded to gives back that one row,
/// for every row that fits the columns and whose record the `csv` reader
/// reads back as the writer was given it.
pub proof fn lemma_round_trip(columns: Seq<ColumnSpec>, row: Seq<Value>)
    requires
        row_matches(columns, row),
        csv_reads_back(fields_of_row(row)),
    ensures
        decode_spec(encode_spec(row), columns) == Ok::<Seq<Seq<Value>>, CodecError>(seq![row]),
{
    let record = fields_of_row(row);
    let records = seq![record];
    lemma_fields_round_trip(columns, row);
    assert(records.drop_last() =~= Seq::<Seq<Seq<char>>>::empty());
    assert(records.last() == record);
    assert(rows_of_records(records.drop_last(), columns) == Ok::<Seq<Seq<Value>>, CodecError>(
        Seq::empty(),
    ));
    assert(Seq::<Seq<Value>>::empty().push(row) =~= seq![row]);
}

/// The values up to a position of a row are estimated no larger than the row.
pub proof fn lemma_estimated_size_prefix(row: Seq<Value>, k: int)
    requires
        0 <= k <= row.len(),
    ensures
        estimated_size_spec(row.take(k)) <= estimated_size_spec(row),
    decreases row.len(),
{
    if k == row.len() {
        assert(row.take(k) =~= row);
    } else {
        lemma_estimated_size_prefix(row.drop_last(), k);
        assert(row.drop_last().take(k) =~= row.take(k));
    }
}

/// The estimated size of a row, used to decide whether it still fits a page:
/// 8 bytes for each `Int`, the length in bytes of each `Str`. Where the sum
/// does not fit a `usize`, the largest `usize`.
pub fn estimated_size(row: &Vec<ColumnValue>) -> (size: usize)
    ensures
        size == if estimated_size_spec(row.deep_view()) <= usize::MAX {
            estimated_size_spec(row.deep_view())
        } else {
            usize::MAX as nat
        },
{
    let ghost values = row.deep_view();
    let mut size: usize = 0;
    let mut i: usize = 0;
    assert(values.take(0) =~= Seq::<Value>::empty());
    while i < row.len()
        invariant
            i <= row.len(),
            values == row.deep_view(),
            size == estimated_size_spec(values.take(i as int)),
        decreases row.len() - i,
    {
        let width = match &row[i] {
            ColumnValue::Int(_) => INT_WIDTH,
            ColumnValue::Str(s) => s.as_str().as_bytes().len(),
        };
        proof {
            assert(values.take(i + 1).drop_last() =~= values.take(i as int));
            assert(values.take(i + 1).last() == row[i as int]@);
            assert(width == value_size(row[i as int]@));
        }
        if width > usize::MAX - size {
            proof {
                lemma_estimated_size_prefix(values, i + 1);
            }
            return usize::MAX;
        }
        size = size + width;
        i = i + 1;
    }
    assert(values.take(row.len() as int) =~= values);
    size
}

/// Decodes every row that a page's bytes hold, in order.
pub fn decode_all(
    bytes: &Vec<u8>,
    columns: &Vec<Column>,
) -> (r: Result<Vec<Vec<ColumnValue>>, CodecError>)
    ensures
        result_view(r) == decode_spec(bytes@, columns.deep_view()),
        r matches Ok(rows) ==> forall|i: int|
            0 <= i < rows.len() ==> (#[trigger] rows[i]).len() == columns.len(),
{
    match read_records(bytes) {
        Ok(records) => records_rows(&records, columns),
        Err(_) => Err(CodecError::MalformedRecord),
    }
}

} // verus!
