use sqldb::create_table;
use sqldb::database::{
    convert_literals, define_columns, names_all_columns, Database, Operation, QueryResult,
};
use sqldb::errors::{InsertRowError, QueryError, SchemaError, SelectRowError};
use sqldb::page::{Page, PageWrite};
use sqldb::schema::{Column, ColumnType, ColumnValue, Table};
use sqldb::statement::{
    select_columns, ColumnDef, Literal, SelectItem, SqlType, Statement, TableRef,
};

fn column(name: &str, _type: ColumnType) -> Column {
    Column { name: String::from(name), _type }
}

fn num(n: i64) -> ColumnValue {
    ColumnValue::Int(n)
}

fn text(s: &str) -> ColumnValue {
    ColumnValue::Str(String::from(s))
}

fn names(list: &[&str]) -> Vec<String> {
    list.iter().map(|n| String::from(*n)).collect()
}

fn users_columns() -> Vec<Column> {
    vec![column("id", ColumnType::Int), column("name", ColumnType::Str)]
}

fn create_users() -> Statement {
    Statement::CreateTable {
        name: String::from("users"),
        column_defs: vec![
            ColumnDef { name: String::from("id"), data_type: SqlType::Int },
            ColumnDef { name: String::from("name"), data_type: SqlType::Text },
        ],
    }
}

fn insert_into(table: &str, columns: &[&str], values: Vec<Literal>) -> Statement {
    Statement::Insert { table_name: String::from(table), columns: names(columns), rows: vec![values] }
}

fn select_from(table: &str, columns: &[&str]) -> Statement {
    Statement::Select {
        from: vec![TableRef::Named(String::from(table))],
        projection: columns.iter().map(|c| SelectItem::Column(String::from(*c))).collect(),
        filtered: false,
    }
}

fn number(text: &str) -> Literal {
    Literal::Number(String::from(text))
}

fn quoted(text: &str) -> Literal {
    Literal::QuotedString(String::from(text))
}

fn with_users() -> Database {
    let mut database = Database::new();
    database.create_table(&String::from("users"), users_columns(), false).unwrap();
    database
}

/// Plays the page store: one heap of pages per table, in catalog order.
fn run(
    database: &mut Database,
    heaps: &mut Vec<Vec<Page>>,
    statement: &Statement,
) -> Result<QueryResult, QueryError> {
    match database.query(statement)? {
        Operation::CreateTable { name, columns } => {
            database.create_table(&name, columns, false)?;
            heaps.push(Vec::new());
            Ok(QueryResult::TableCreated)
        }
        Operation::Insert { table, row } => {
            let page_sizes: Vec<u64> = heaps[table].iter().map(|p| p.content.len() as u64).collect();
            let PageWrite { page_number, bytes } = database.insert_row(table, row, &page_sizes)?;
            let at = page_number as usize;
            if at < heaps[table].len() {
                heaps[table][at].content.extend(bytes);
            } else {
                heaps[table].push(Page { number: page_number, content: bytes });
            }
            Ok(QueryResult::RowInserted)
        }
        Operation::Select { table, names } => database.select(table, &names, &heaps[table]),
    }
}

#[test]
fn a_new_database_has_no_tables() {
    let database = Database::new();
    assert!(database.tables().is_empty());
    assert_eq!(database.find_table(&String::from("users")), None);
}

#[test]
fn create_table_registers_the_table() {
    let mut database = Database::new();
    assert_eq!(database.create_table(&String::from("users"), users_columns(), false), Ok(()));
    assert_eq!(
        database.tables(),
        &vec![Table { name: String::from("users"), columns: users_columns() }]
    );
    assert_eq!(database.find_table(&String::from("users")), Some(0));
    assert_eq!(database.create_table(&String::from("t"), vec![column("a", ColumnType::Int)], false), Ok(()));
    assert_eq!(database.find_table(&String::from("t")), Some(1));
    assert_eq!(database.find_table(&String::from("T")), None);
}

#[test]
fn create_table_without_columns_fails_with_empty_column_list() {
    let mut database = Database::new();
    assert_eq!(
        database.create_table(&String::from("t"), Vec::new(), false),
        Err(QueryError::SchemaError(SchemaError::EmptyColumnList))
    );
    assert!(database.tables().is_empty());
}

#[test]
fn create_table_refuses_a_registered_name_first() {
    let mut database = with_users();
    assert_eq!(
        database.create_table(&String::from("users"), Vec::new(), true),
        Err(QueryError::DuplicateTable)
    );
    assert_eq!(
        database.create_table(&String::from("users"), users_columns(), false),
        Err(QueryError::DuplicateTable)
    );
    assert_eq!(database.tables().len(), 1);
}

#[test]
fn create_table_refuses_duplicate_columns_and_taken_namespaces() {
    let mut database = with_users();
    let twice = vec![column("a", ColumnType::Int), column("a", ColumnType::Str)];
    assert_eq!(
        database.create_table(&String::from("t"), twice, false),
        Err(QueryError::SchemaError(SchemaError::DuplicateColumn))
    );
    assert_eq!(
        database.create_table(&String::from("t"), users_columns(), true),
        Err(QueryError::SchemaError(SchemaError::TableAlreadyExists))
    );
    assert_eq!(database.tables().len(), 1);
    assert_eq!(database.find_table(&String::from("t")), None);
}

#[test]
fn check_new_table_changes_nothing() {
    let database = with_users();
    assert_eq!(database.check_new_table(&String::from("t"), &users_columns()), Ok(()));
    assert_eq!(
        database.check_new_table(&String::from("users"), &users_columns()),
        Err(QueryError::DuplicateTable)
    );
    assert_eq!(database.tables().len(), 1);
}

#[test]
fn from_tables_takes_a_valid_catalog() {
    let tables = vec![
        Table { name: String::from("users"), columns: users_columns() },
        Table { name: String::from("t"), columns: vec![column("a", ColumnType::Int)] },
    ];
    let database = Database::from_tables(tables.clone()).unwrap();
    assert_eq!(database.tables(), &tables);
    assert!(Database::from_tables(Vec::new()).unwrap().tables().is_empty());
}

#[test]
fn from_tables_refuses_a_catalog_that_is_not_valid() {
    let users = Table { name: String::from("users"), columns: users_columns() };
    let empty = Table { name: String::from("e"), columns: Vec::new() };
    let twice = Table {
        name: String::from("d"),
        columns: vec![column("a", ColumnType::Int), column("a", ColumnType::Int)],
    };
    assert!(matches!(
        Database::from_tables(vec![users.clone(), users.clone()]),
        Err(QueryError::DuplicateTable)
    ));
    assert!(matches!(
        Database::from_tables(vec![users.clone(), empty.clone()]),
        Err(QueryError::SchemaError(SchemaError::EmptyColumnList))
    ));
    assert!(matches!(
        Database::from_tables(vec![twice.clone(), empty]),
        Err(QueryError::SchemaError(SchemaError::DuplicateColumn))
    ));
    assert!(matches!(
        Database::from_tables(vec![users.clone(), twice, users]),
        Err(QueryError::SchemaError(SchemaError::DuplicateColumn))
    ));
}

#[test]
fn the_free_create_table_starts_the_heap_with_an_empty_page_zero() {
    let table = Table::new(String::from("users"), users_columns());
    assert_eq!(create_table(&table, false), Ok(Page { number: 0, content: Vec::new() }));
    assert_eq!(create_table(&table, true), Err(SchemaError::TableAlreadyExists));
    let empty = Table::new(String::from("e"), Vec::new());
    assert_eq!(create_table(&empty, false), Err(SchemaError::EmptyColumnList));
    let twice = Table::new(
        String::from("d"),
        vec![column("a", ColumnType::Int), column("a", ColumnType::Str)],
    );
    assert_eq!(create_table(&twice, false), Err(SchemaError::DuplicateColumn));
}

#[test]
fn query_resolves_a_create_table() {
    let database = Database::new();
    assert_eq!(
        database.query(&create_users()),
        Ok(Operation::CreateTable { name: String::from("users"), columns: users_columns() })
    );
    assert!(database.tables().is_empty());
}

#[test]
fn query_refuses_a_create_table_that_cannot_be_carried_out() {
    let database = with_users();
    assert_eq!(database.query(&create_users()), Err(QueryError::DuplicateTable));
    let unsupported = Statement::CreateTable {
        name: String::from("users"),
        column_defs: vec![
            ColumnDef { name: String::from("id"), data_type: SqlType::Int },
            ColumnDef { name: String::from("born"), data_type: SqlType::Other },
        ],
    };
    assert_eq!(database.query(&unsupported), Err(QueryError::SchemaError(SchemaError::UnsupportedType)));
    let empty = Statement::CreateTable { name: String::from("t"), column_defs: Vec::new() };
    assert_eq!(database.query(&empty), Err(QueryError::SchemaError(SchemaError::EmptyColumnList)));
    let twice = Statement::CreateTable {
        name: String::from("t"),
        column_defs: vec![
            ColumnDef { name: String::from("a"), data_type: SqlType::Int },
            ColumnDef { name: String::from("a"), data_type: SqlType::Text },
        ],
    };
    assert_eq!(database.query(&twice), Err(QueryError::SchemaError(SchemaError::DuplicateColumn)));
}

#[test]
fn query_resolves_an_insert() {
    let database = with_users();
    let statement = insert_into("users", &["id", "name"], vec![number("1"), quoted("alice")]);
    assert_eq!(
        database.query(&statement),
        Ok(Operation::Insert { table: 0, row: vec![num(1), text("alice")] })
    );
}

#[test]
fn an_insert_must_name_all_columns_in_order() {
    let database = with_users();
    let cases: Vec<Vec<&str>> = vec![
        vec!["id"],
        vec!["name"],
        vec![],
        vec!["name", "id"],
        vec!["id", "name", "id"],
        vec!["id", "nom"],
    ];
    for columns in cases {
        let statement = insert_into("users", &columns, vec![number("1"), quoted("alice")]);
        assert_eq!(database.query(&statement), Err(QueryError::InsertMustSpecifyAllColumns));
    }
}

#[test]
fn an_insert_into_an_unknown_table_fails_first() {
    let database = with_users();
    let statement = insert_into("ghost", &["id"], vec![Literal::Other]);
    assert_eq!(database.query(&statement), Err(QueryError::UnknownTable));
}

#[test]
fn an_insert_takes_exactly_one_row_of_literals() {
    let database = with_users();
    let none = Statement::Insert {
        table_name: String::from("users"),
        columns: names(&["id", "name"]),
        rows: Vec::new(),
    };
    assert_eq!(database.query(&none), Err(QueryError::UnsupportedQueryShape));
    let two = Statement::Insert {
        table_name: String::from("users"),
        columns: names(&["id", "name"]),
        rows: vec![vec![number("1"), quoted("a")], vec![number("2"), quoted("b")]],
    };
    assert_eq!(database.query(&two), Err(QueryError::UnsupportedQueryShape));
    let other = insert_into("users", &["id", "name"], vec![number("1"), Literal::Other]);
    assert_eq!(database.query(&other), Err(QueryError::UnsupportedQueryShape));
}

#[test]
fn a_number_that_is_no_integer_is_an_unmatching_type() {
    let database = with_users();
    for literal in ["1.5", "1e3", "9223372036854775808", ""] {
        let statement = insert_into("users", &["id", "name"], vec![number(literal), quoted("a")]);
        assert_eq!(
            database.query(&statement),
            Err(QueryError::InsertRowError(InsertRowError::UnmatchingType))
        );
    }
}

#[test]
fn convert_literals_goes_by_each_literal_s_own_kind() {
    assert_eq!(
        convert_literals(&vec![quoted("1"), number("-2"), number("+3")]),
        Ok(vec![text("1"), num(-2), num(3)])
    );
    assert_eq!(convert_literals(&Vec::new()), Ok(Vec::new()));
    assert_eq!(
        convert_literals(&vec![number("x"), Literal::Other]),
        Err(QueryError::InsertRowError(InsertRowError::UnmatchingType))
    );
    assert_eq!(
        convert_literals(&vec![Literal::Other, number("x")]),
        Err(QueryError::UnsupportedQueryShape)
    );
}

#[test]
fn define_columns_maps_the_types() {
    let defs = vec![
        ColumnDef { name: String::from("a"), data_type: SqlType::Text },
        ColumnDef { name: String::from("b"), data_type: SqlType::Int },
    ];
    assert_eq!(
        define_columns(&defs),
        Some(vec![column("a", ColumnType::Str), column("b", ColumnType::Int)])
    );
    assert_eq!(define_columns(&Vec::new()), Some(Vec::new()));
    let other = vec![ColumnDef { name: String::from("a"), data_type: SqlType::Other }];
    assert_eq!(define_columns(&other), None);
}

#[test]
fn names_all_columns_compares_names_one_for_one() {
    assert!(names_all_columns(&names(&["id", "name"]), &users_columns()));
    assert!(!names_all_columns(&names(&["name", "id"]), &users_columns()));
    assert!(!names_all_columns(&names(&["id"]), &users_columns()));
    assert!(names_all_columns(&Vec::new(), &Vec::new()));
}

#[test]
fn select_columns_gives_the_names_of_a_supported_select() {
    let one = vec![TableRef::Named(String::from("t"))];
    let items = vec![SelectItem::Column(String::from("b")), SelectItem::Column(String::from("a"))];
    assert_eq!(select_columns(&one, &items, false), Some(names(&["b", "a"])));
    assert_eq!(select_columns(&one, &Vec::new(), false), Some(Vec::new()));
    assert_eq!(select_columns(&one, &items, true), None);
    assert_eq!(select_columns(&Vec::new(), &items, false), None);
    assert_eq!(select_columns(&vec![TableRef::Other], &items, false), None);
    let mixed = vec![SelectItem::Column(String::from("a")), SelectItem::Wildcard];
    assert_eq!(select_columns(&one, &mixed, false), None);
}

#[test]
fn query_resolves_a_select() {
    let database = with_users();
    assert_eq!(
        database.query(&select_from("users", &["name", "id"])),
        Ok(Operation::Select { table: 0, names: names(&["name", "id"]) })
    );
}

#[test]
fn query_refuses_a_select_of_another_shape() {
    let database = with_users();
    let wildcard = Statement::Select {
        from: vec![TableRef::Named(String::from("users"))],
        projection: vec![SelectItem::Wildcard],
        filtered: false,
    };
    assert_eq!(database.query(&wildcard), Err(QueryError::UnsupportedQueryShape));
    let aliased = Statement::Select {
        from: vec![TableRef::Named(String::from("ghost"))],
        projection: vec![SelectItem::Aliased],
        filtered: false,
    };
    assert_eq!(database.query(&aliased), Err(QueryError::UnsupportedQueryShape));
    let filtered = Statement::Select {
        from: vec![TableRef::Named(String::from("users"))],
        projection: vec![SelectItem::Column(String::from("id"))],
        filtered: true,
    };
    assert_eq!(database.query(&filtered), Err(QueryError::UnsupportedQueryShape));
    let joined = Statement::Select {
        from: vec![TableRef::Named(String::from("users")), TableRef::Named(String::from("users"))],
        projection: vec![SelectItem::Column(String::from("id"))],
        filtered: false,
    };
    assert_eq!(database.query(&joined), Err(QueryError::UnsupportedQueryShape));
}

#[test]
fn query_refuses_unknown_tables_and_columns() {
    let database = with_users();
    assert_eq!(database.query(&select_from("ghost", &["id"])), Err(QueryError::UnknownTable));
    assert_eq!(database.query(&select_from("ghost", &["zz"])), Err(QueryError::UnknownTable));
    assert_eq!(database.query(&select_from("users", &["nonexistent"])), Err(QueryError::UnknownColumn));
    assert_eq!(database.query(&select_from("users", &["id", "zz", "name"])), Err(QueryError::UnknownColumn));
}

#[test]
fn query_refuses_other_statements() {
    assert_eq!(Database::new().query(&Statement::Other), Err(QueryError::UnsupportedOperation));
}

#[test]
fn insert_row_passes_the_table_s_errors_on() {
    let database = with_users();
    assert_eq!(
        database.insert_row(0, vec![num(1), text("alice")], &Vec::new()),
        Ok(PageWrite { page_number: 0, bytes: b"1,alice\n".to_vec() })
    );
    assert_eq!(
        database.insert_row(0, vec![num(1)], &Vec::new()),
        Err(QueryError::InsertRowError(InsertRowError::ArityMismatch))
    );
    assert_eq!(
        database.insert_row(0, vec![num(1), num(2)], &Vec::new()),
        Err(QueryError::InsertRowError(InsertRowError::TypeMismatch(1)))
    );
    assert_eq!(
        database.insert_row(0, vec![num(1), text(&"x".repeat(4089))], &Vec::new()),
        Err(QueryError::InsertRowError(InsertRowError::RowTooLarge))
    );
    assert_eq!(database.insert_row(1, vec![num(1), text("a")], &Vec::new()), Err(QueryError::UnknownTable));
}

#[test]
fn select_passes_the_table_s_errors_on() {
    let database = with_users();
    let pages = vec![Page { number: 0, content: b"1,alice\n".to_vec() }];
    assert_eq!(
        database.select(0, &names(&["name"]), &pages),
        Ok(QueryResult::RowsProjected(vec![text("alice")]))
    );
    assert_eq!(
        database.select(0, &names(&["id", "id", "id"]), &pages),
        Err(QueryError::SelectRowError(SelectRowError::TooManyColumns))
    );
    assert_eq!(
        database.select(0, &names(&["age"]), &pages),
        Err(QueryError::SelectRowError(SelectRowError::UnknownColumn(String::from("age"))))
    );
    assert_eq!(database.select(7, &names(&["name"]), &pages), Err(QueryError::UnknownTable));
}

#[test]
fn end_to_end_create_insert_select() {
    let mut database = Database::new();
    let mut heaps: Vec<Vec<Page>> = Vec::new();
    assert_eq!(run(&mut database, &mut heaps, &create_users()), Ok(QueryResult::TableCreated));
    assert_eq!(
        run(
            &mut database,
            &mut heaps,
            &insert_into("users", &["id", "name"], vec![number("1"), quoted("alice")])
        ),
        Ok(QueryResult::RowInserted)
    );
    assert_eq!(
        run(
            &mut database,
            &mut heaps,
            &insert_into("users", &["id", "name"], vec![number("2"), quoted("bob")])
        ),
        Ok(QueryResult::RowInserted)
    );
    assert_eq!(
        run(&mut database, &mut heaps, &select_from("users", &["name", "id"])),
        Ok(QueryResult::RowsProjected(vec![text("alice"), num(1), text("bob"), num(2)]))
    );
    assert_eq!(
        run(&mut database, &mut heaps, &select_from("ghost", &["name"])),
        Err(QueryError::UnknownTable)
    );
}

#[test]
fn end_to_end_rejected_inserts_leave_the_heap_as_it_was() {
    let mut database = Database::new();
    let mut heaps: Vec<Vec<Page>> = Vec::new();
    run(&mut database, &mut heaps, &create_users()).unwrap();
    run(
        &mut database,
        &mut heaps,
        &insert_into("users", &["id", "name"], vec![number("1"), quoted("alice")]),
    )
    .unwrap();
    let before = heaps.clone();
    assert_eq!(
        run(&mut database, &mut heaps, &insert_into("users", &["id"], vec![number("2")])),
        Err(QueryError::InsertMustSpecifyAllColumns)
    );
    assert_eq!(
        run(
            &mut database,
            &mut heaps,
            &insert_into("users", &["id", "name"], vec![quoted("2"), quoted("bob")])
        ),
        Err(QueryError::InsertRowError(InsertRowError::TypeMismatch(0)))
    );
    assert_eq!(
        run(&mut database, &mut heaps, &insert_into("users", &["id", "name"], vec![number("2")])),
        Err(QueryError::InsertRowError(InsertRowError::ArityMismatch))
    );
    assert_eq!(
        run(
            &mut database,
            &mut heaps,
            &insert_into("users", &["id", "name"], vec![number("2"), quoted(&"b".repeat(5000))])
        ),
        Err(QueryError::InsertRowError(InsertRowError::RowTooLarge))
    );
    assert_eq!(heaps, before);
}
