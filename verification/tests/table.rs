use sqldb::codec::encode;
use sqldb::errors::{CodecError, InsertRowError, SchemaError, SelectRowError};
use sqldb::page::{Page, PageWrite};
use sqldb::schema::{Column, ColumnType, ColumnValue, Table};
use sqldb::statement::{SelectItem, Statement, TableRef};
use sqldb::table::{check_names_unique, project};

fn column(name: &str, _type: ColumnType) -> Column {
    Column { name: String::from(name), _type }
}

fn num(n: i64) -> ColumnValue {
    ColumnValue::Int(n)
}

fn text(s: &str) -> ColumnValue {
    ColumnValue::Str(String::from(s))
}

fn names(list: &[&str]) -> Vec<String> {
    list.iter().map(|n| String::from(*n)).collect()
}

fn ab() -> Table {
    Table::new(String::from("t"), vec![column("a", ColumnType::Int), column("b", ColumnType::Str)])
}

fn notes() -> Table {
    Table::new(String::from("notes"), vec![column("body", ColumnType::Str)])
}

fn carry_out(pages: &mut Vec<Page>, write: PageWrite) {
    let at = write.page_number as usize;
    if at < pages.len() {
        pages[at].content.extend(write.bytes);
    } else {
        assert_eq!(at, pages.len());
        pages.push(Page { number: write.page_number, content: write.bytes });
    }
}

fn sizes(pages: &Vec<Page>) -> Vec<u64> {
    pages.iter().map(|p| p.content.len() as u64).collect()
}

fn filled(table: &Table, rows: Vec<Vec<ColumnValue>>) -> Vec<Page> {
    let mut pages = Vec::new();
    for row in rows {
        let write = table.insert_row(row, &sizes(&pages)).unwrap();
        carry_out(&mut pages, write);
    }
    pages
}

#[test]
fn new_takes_name_and_columns_as_they_are() {
    let table = Table::new(String::from("empty"), Vec::new());
    assert_eq!(table.name, "empty");
    assert!(table.columns.is_empty());
}

#[test]
fn create_checks_the_columns() {
    let columns = vec![column("a", ColumnType::Int), column("b", ColumnType::Str)];
    let table = Table::create(String::from("t"), columns.clone(), false).unwrap();
    assert_eq!(table, Table { name: String::from("t"), columns });
}

#[test]
fn create_refuses_an_empty_column_list() {
    assert_eq!(Table::create(String::from("t"), Vec::new(), false), Err(SchemaError::EmptyColumnList));
    assert_eq!(Table::create(String::from("t"), Vec::new(), true), Err(SchemaError::EmptyColumnList));
}

#[test]
fn create_refuses_a_column_name_used_twice() {
    let columns = vec![
        column("a", ColumnType::Int),
        column("b", ColumnType::Str),
        column("a", ColumnType::Str),
    ];
    assert_eq!(Table::create(String::from("t"), columns.clone(), false), Err(SchemaError::DuplicateColumn));
    assert_eq!(Table::create(String::from("t"), columns, true), Err(SchemaError::DuplicateColumn));
}

#[test]
fn create_refuses_a_namespace_that_exists() {
    let columns = vec![column("a", ColumnType::Int)];
    assert_eq!(Table::create(String::from("t"), columns, true), Err(SchemaError::TableAlreadyExists));
}

#[test]
fn check_names_unique_compares_every_pair() {
    assert!(check_names_unique(&Vec::new()));
    assert!(check_names_unique(&vec![column("a", ColumnType::Int), column("A", ColumnType::Int)]));
    assert!(!check_names_unique(&vec![
        column("x", ColumnType::Int),
        column("y", ColumnType::Int),
        column("z", ColumnType::Int),
        column("y", ColumnType::Str),
    ]));
}

#[test]
fn check_row_looks_at_length_first_and_then_at_each_type() {
    let table = ab();
    assert_eq!(table.check_row(&vec![num(1), text("x")]), Ok(()));
    assert_eq!(table.check_row(&vec![num(1)]), Err(InsertRowError::ArityMismatch));
    assert_eq!(table.check_row(&vec![text("x"), num(1), num(2)]), Err(InsertRowError::ArityMismatch));
    assert_eq!(table.check_row(&vec![text("x"), num(1)]), Err(InsertRowError::TypeMismatch(0)));
    assert_eq!(table.check_row(&vec![num(1), num(2)]), Err(InsertRowError::TypeMismatch(1)));
}

#[test]
fn insert_returns_the_one_write_for_the_row() {
    let write = ab().insert_row(vec![num(1), text("x")], &Vec::new()).unwrap();
    assert_eq!(write, PageWrite { page_number: 0, bytes: b"1,x\n".to_vec() });
}

#[test]
fn insert_of_a_row_of_the_wrong_length_fails() {
    let table = ab();
    for page_sizes in [Vec::new(), vec![0], vec![4096, 10]] {
        assert_eq!(table.insert_row(vec![num(1)], &page_sizes), Err(InsertRowError::ArityMismatch));
        assert_eq!(table.insert_row(Vec::new(), &page_sizes), Err(InsertRowError::ArityMismatch));
        assert_eq!(
            table.insert_row(vec![num(1), text("x"), num(2)], &page_sizes),
            Err(InsertRowError::ArityMismatch)
        );
    }
}

#[test]
fn insert_of_a_value_of_the_wrong_type_fails_with_its_position() {
    let table = ab();
    assert_eq!(table.insert_row(vec![num(1), num(2)], &Vec::new()), Err(InsertRowError::TypeMismatch(1)));
    assert_eq!(
        table.insert_row(vec![text("1"), text("x")], &vec![100]),
        Err(InsertRowError::TypeMismatch(0))
    );
    assert_eq!(
        table.insert_row(vec![text("1"), num(2)], &Vec::new()),
        Err(InsertRowError::TypeMismatch(0))
    );
}

#[test]
fn a_row_estimated_larger_than_a_page_is_refused() {
    let table = notes();
    let large = "x".repeat(4097);
    for page_sizes in [Vec::new(), vec![0], vec![4000, 0]] {
        assert_eq!(table.insert_row(vec![text(&large)], &page_sizes), Err(InsertRowError::RowTooLarge));
    }
    let wide = ab();
    assert_eq!(
        wide.insert_row(vec![num(1), text(&"y".repeat(4089))], &Vec::new()),
        Err(InsertRowError::RowTooLarge)
    );
}

#[test]
fn a_row_estimated_at_exactly_a_page_is_taken() {
    let table = notes();
    let exact = "x".repeat(4096);
    let write = table.insert_row(vec![text(&exact)], &Vec::new()).unwrap();
    assert_eq!(write.page_number, 0);
    let write = table.insert_row(vec![text(&exact)], &vec![0]).unwrap();
    assert_eq!(write.page_number, 1);
    let wide = ab();
    let write = wide.insert_row(vec![num(1), text(&"y".repeat(4088))], &vec![1, 2, 3]).unwrap();
    assert_eq!(write.page_number, 3);
}

#[test]
fn the_type_check_comes_before_the_size_check() {
    let table = ab();
    let large = "x".repeat(5000);
    assert_eq!(
        table.insert_row(vec![text(&large), text(&large)], &Vec::new()),
        Err(InsertRowError::TypeMismatch(0))
    );
}

#[test]
fn inserts_fill_a_page_and_then_roll_over() {
    let table = notes();
    let body = "r".repeat(1000);
    let mut pages: Vec<Page> = Vec::new();
    let mut targets = Vec::new();
    for _ in 0..9 {
        let write = table.insert_row(vec![text(&body)], &sizes(&pages)).unwrap();
        assert_eq!(write.bytes.len(), 1001);
        targets.push(write.page_number);
        carry_out(&mut pages, write);
    }
    assert_eq!(targets, vec![0, 0, 0, 0, 1, 1, 1, 1, 2]);
    assert_eq!(sizes(&pages), vec![4004, 4004, 1001]);
    let rollovers = 2;
    assert_eq!(pages.len(), rollovers + 1);
}

#[test]
fn a_rolled_over_row_is_whole_on_its_page() {
    let table = ab();
    let mut pages = vec![Page { number: 0, content: vec![b'\n'; 4090] }];
    let row = vec![num(7), text("seven")];
    let write = table.insert_row(row.clone(), &sizes(&pages)).unwrap();
    assert_eq!(write, PageWrite { page_number: 1, bytes: encode(&row) });
    carry_out(&mut pages, write);
    assert_eq!(pages[0].content.len(), 4090);
    assert_eq!(pages[1], Page { number: 1, content: b"7,seven\n".to_vec() });
}

#[test]
fn find_column_gives_the_first_position_of_a_name() {
    let table = Table::new(
        String::from("t"),
        vec![column("a", ColumnType::Int), column("b", ColumnType::Str), column("a", ColumnType::Str)],
    );
    assert_eq!(table.find_column(&String::from("a")), Some(0));
    assert_eq!(table.find_column(&String::from("b")), Some(1));
    assert_eq!(table.find_column(&String::from("c")), None);
    assert_eq!(table.find_column(&String::from("")), None);
}

#[test]
fn resolve_keeps_the_order_asked() {
    let table = ab();
    assert_eq!(table.resolve(&names(&["b", "a", "b"])), Ok(vec![1, 0, 1]));
    assert_eq!(table.resolve(&Vec::new()), Ok(Vec::new()));
    assert_eq!(table.resolve(&names(&["a", "x", "y"])), Err(1));
}

#[test]
fn project_flattens_rows_in_the_order_of_the_positions() {
    let rows = vec![vec![num(1), text("x")], vec![num(2), text("y")]];
    assert_eq!(project(&rows, &vec![1, 0]), vec![text("x"), num(1), text("y"), num(2)]);
    assert_eq!(project(&rows, &vec![0, 0]), vec![num(1), num(1), num(2), num(2)]);
    assert_eq!(project(&rows, &Vec::new()), Vec::new());
    assert_eq!(project(&Vec::new(), &vec![3]), Vec::new());
}

#[test]
fn select_returns_columns_in_the_order_asked_row_after_row() {
    let table = ab();
    let pages = filled(&table, vec![vec![num(1), text("x")], vec![num(2), text("y")]]);
    assert_eq!(
        table.select(&names(&["b", "a"]), &pages),
        Ok(vec![text("x"), num(1), text("y"), num(2)])
    );
    assert_eq!(table.select(&names(&["a"]), &pages), Ok(vec![num(1), num(2)]));
    assert_eq!(
        table.select(&names(&["a", "a"]), &pages),
        Ok(vec![num(1), num(1), num(2), num(2)])
    );
}

#[test]
fn select_reads_the_pages_in_the_order_given() {
    let table = notes();
    let body = "r".repeat(2050);
    let pages = filled(
        &table,
        vec![vec![text("first")], vec![text(&body)], vec![text(&body)], vec![text("last")]],
    );
    assert_eq!(pages.len(), 2);
    assert_eq!(
        table.select(&names(&["body"]), &pages),
        Ok(vec![text("first"), text(&body), text(&body), text("last")])
    );
}

#[test]
fn select_of_an_empty_table_is_empty() {
    assert_eq!(ab().select(&names(&["a", "b"]), &Vec::new()), Ok(Vec::new()));
    let pages = vec![Page { number: 0, content: Vec::new() }];
    assert_eq!(ab().select(&names(&["a", "b"]), &pages), Ok(Vec::new()));
}

#[test]
fn select_of_an_unknown_column_fails_with_its_name() {
    let table = ab();
    assert_eq!(
        table.select(&names(&["nonexistent"]), &Vec::new()),
        Err(SelectRowError::UnknownColumn(String::from("nonexistent")))
    );
    assert_eq!(
        table.select(&names(&["a", "z"]), &Vec::new()),
        Err(SelectRowError::UnknownColumn(String::from("z")))
    );
    assert_eq!(
        table.select(&names(&["y", "z"]), &Vec::new()),
        Err(SelectRowError::UnknownColumn(String::from("y")))
    );
}

#[test]
fn select_of_more_columns_than_the_table_has_fails_first() {
    let table = ab();
    assert_eq!(table.select(&names(&["a", "b", "a"]), &Vec::new()), Err(SelectRowError::TooManyColumns));
    assert_eq!(table.select(&names(&["x", "y", "z"]), &Vec::new()), Err(SelectRowError::TooManyColumns));
}

#[test]
fn select_passes_on_what_the_codec_reports() {
    let table = ab();
    let good = Page { number: 0, content: b"1,x\n".to_vec() };
    let untyped = Page { number: 1, content: b"one,x\n".to_vec() };
    let short = Page { number: 2, content: b"1\n".to_vec() };
    assert_eq!(
        table.select(&names(&["a"]), &vec![good.clone(), untyped.clone(), short.clone()]),
        Err(SelectRowError::Codec(CodecError::TypeMismatch))
    );
    assert_eq!(
        table.select(&names(&["a"]), &vec![good.clone(), short, untyped]),
        Err(SelectRowError::Codec(CodecError::MalformedRecord))
    );
    assert_eq!(
        table.select(&names(&["q"]), &vec![good]),
        Err(SelectRowError::UnknownColumn(String::from("q")))
    );
}

#[test]
fn read_rows_joins_the_rows_of_all_pages() {
    let table = ab();
    let pages = vec![
        Page { number: 0, content: b"1,x\n2,y\n".to_vec() },
        Page { number: 1, content: Vec::new() },
        Page { number: 2, content: b"3,z\n".to_vec() },
    ];
    assert_eq!(
        table.read_rows(&pages),
        Ok(vec![vec![num(1), text("x")], vec![num(2), text("y")], vec![num(3), text("z")]])
    );
}

#[test]
fn query_answers_a_plain_select() {
    let table = ab();
    let pages = filled(&table, vec![vec![num(1), text("x")], vec![num(2), text("y")]]);
    let statement = Statement::Select {
        from: vec![TableRef::Named(String::from("anything"))],
        projection: vec![SelectItem::Column(String::from("b")), SelectItem::Column(String::from("a"))],
        filtered: false,
    };
    assert_eq!(table.query(&statement, &pages), Ok(vec![text("x"), num(1), text("y"), num(2)]));
}

#[test]
fn query_refuses_other_shapes_and_other_statements() {
    let table = ab();
    let plain = vec![SelectItem::Column(String::from("a"))];
    let one = vec![TableRef::Named(String::from("t"))];
    let shapes = vec![
        Statement::Select { from: one.clone(), projection: vec![SelectItem::Wildcard], filtered: false },
        Statement::Select { from: one.clone(), projection: vec![SelectItem::Aliased], filtered: false },
        Statement::Select { from: one.clone(), projection: plain.clone(), filtered: true },
        Statement::Select { from: Vec::new(), projection: plain.clone(), filtered: false },
        Statement::Select { from: vec![TableRef::Other], projection: plain.clone(), filtered: false },
        Statement::Select {
            from: vec![TableRef::Named(String::from("t")), TableRef::Named(String::from("u"))],
            projection: plain.clone(),
            filtered: false,
        },
    ];
    for statement in shapes {
        assert_eq!(table.query(&statement, &Vec::new()), Err(SelectRowError::UnsupportedQueryShape));
    }
    let insert = Statement::Insert { table_name: String::from("t"), columns: Vec::new(), rows: Vec::new() };
    assert_eq!(table.query(&insert, &Vec::new()), Err(SelectRowError::UnsupportedOperation));
    assert_eq!(table.query(&Statement::Other, &Vec::new()), Err(SelectRowError::UnsupportedOperation));
    let unknown = Statement::Select {
        from: one,
        projection: vec![SelectItem::Column(String::from("zz"))],
        filtered: false,
    };
    assert_eq!(
        table.query(&unknown, &Vec::new()),
        Err(SelectRowError::UnknownColumn(String::from("zz")))
    );
}
