use minidb::DBError;
use minidb::DBField;
use minidb::Engine;
use minidb::Lexer;
use minidb::Parser;
use minidb::QueryError;
use minidb::QueryResult;
use minidb::Table;

const PEOPLE: &str = "id: INT, name: TEXT\n1, Alice\n2, Rob\n3, Jane\n";

fn people() -> Table {
    Table::load_table("users".to_string(), PEOPLE).unwrap()
}

fn run_sql(text: &str, table: &mut Table) -> Result<QueryResult, QueryError> {
    let tokens = Lexer::new(text).lex().unwrap();
    let mut parser = Parser::new(tokens);
    let root = parser.generate_ast().unwrap();
    let engine = Engine { ast_root: root };
    engine.run(table)
}

#[test]
fn load_reads_header_and_rows() {
    let t = people();
    assert_eq!(t.header.len(), 2);
    assert_eq!(t.header[0].name, "id");
    assert_eq!(t.header[1].name, "name");
    assert_eq!(
        t.entries,
        vec![
            vec![DBField::Int(1), DBField::Text("Alice".to_string())],
            vec![DBField::Int(2), DBField::Text("Rob".to_string())],
            vec![DBField::Int(3), DBField::Text("Jane".to_string())],
        ]
    );
}

#[test]
fn load_rejects_unknown_type_token() {
    let r = Table::load_table("t".to_string(), "id: BLOB\n");
    assert!(matches!(r, Err(DBError::GenericLoadingError)));
}

#[test]
fn load_rejects_non_numeric_int_field() {
    let r = Table::load_table("t".to_string(), "id: INT, name: TEXT\nx, Alice\n");
    assert!(matches!(r, Err(DBError::GenericLoadingError)));
}

#[test]
fn round_trip_preserves_rows() {
    let mut t = people();
    t.insert(
        None,
        vec![DBField::Int(4), DBField::Text("Tod".to_string())],
    )
    .unwrap();
    t.insert(
        None,
        vec![DBField::Int(-7), DBField::Text("Ann".to_string())],
    )
    .unwrap();
    let written = t.to_file_string();
    let reloaded = Table::load_table("users".to_string(), written.as_str()).unwrap();
    assert_eq!(reloaded.header, t.header);
    assert_eq!(reloaded.entries, t.entries);
}

#[test]
fn round_trip_preserves_extreme_integers() {
    let mut t = Table::load_table("nums".to_string(), "lo: INT, hi: INT\n").unwrap();
    t.insert(
        None,
        vec![DBField::Int(i32::MIN), DBField::Int(i32::MAX)],
    )
    .unwrap();
    let written = t.to_file_string();
    let reloaded = Table::load_table("nums".to_string(), written.as_str()).unwrap();
    assert_eq!(
        reloaded.entries,
        vec![vec![DBField::Int(i32::MIN), DBField::Int(i32::MAX)]]
    );
}

#[test]
fn render_writes_exact_file_text() {
    let mut t = Table::load_table("users".to_string(), "id: INT, name: TEXT\n").unwrap();
    t.insert(
        None,
        vec![DBField::Int(1), DBField::Text("Alice".to_string())],
    )
    .unwrap();
    assert_eq!(t.to_file_string(), "id: INT, name: TEXT\n1, Alice\n\n");
}

#[test]
fn insert_fills_missing_columns_with_defaults() {
    let mut t = Table::load_table("users".to_string(), "id: INT, name: TEXT\n").unwrap();
    t.insert(
        Some(vec!["name".to_string()]),
        vec![DBField::Text("X".to_string())],
    )
    .unwrap();
    assert_eq!(
        t.entries,
        vec![vec![DBField::Int(0), DBField::Text("X".to_string())]]
    );
}

#[test]
fn insert_reorders_values_to_schema_positions() {
    let mut t = Table::load_table("users".to_string(), "id: INT, name: TEXT\n").unwrap();
    t.insert(
        Some(vec!["name".to_string(), "id".to_string()]),
        vec![DBField::Text("Y".to_string()), DBField::Int(9)],
    )
    .unwrap();
    assert_eq!(
        t.entries,
        vec![vec![DBField::Int(9), DBField::Text("Y".to_string())]]
    );
}

#[test]
fn insert_mistyped_value_changes_nothing() {
    let mut t = people();
    let before_rows = t.entries.clone();
    let before_file = t.to_file_string();
    let r = t.insert(
        Some(vec!["id".to_string(), "name".to_string()]),
        vec![
            DBField::Text("oops".to_string()),
            DBField::Text("Zoe".to_string()),
        ],
    );
    match r {
        Err(DBError::MistypedInsertInput(v, ty)) => {
            assert_eq!(v, DBField::Text("oops".to_string()));
            assert_eq!(ty, minidb::DataTypes::INT);
        },
        other => panic!("expected a type error, got {:?}", other),
    }
    assert_eq!(t.entries, before_rows);
    assert_eq!(t.to_file_string(), before_file);
}

#[test]
fn insert_unknown_column_fails() {
    let mut t = people();
    let r = t.insert(
        Some(vec!["age".to_string()]),
        vec![DBField::Int(30)],
    );
    assert!(matches!(r, Err(DBError::ColumnNotFound(_))));
}

#[test]
fn insert_missing_value_fails() {
    let mut t = people();
    let r = t.insert(
        Some(vec!["id".to_string(), "name".to_string()]),
        vec![DBField::Int(4)],
    );
    assert!(matches!(r, Err(DBError::MalformedInsertInput)));
}

#[test]
fn select_cols_projects_in_request_order() {
    let t = people();
    let rows = t.select_cols(vec!["name".to_string()]).unwrap();
    assert_eq!(
        rows,
        vec![
            vec![DBField::Text("Alice".to_string())],
            vec![DBField::Text("Rob".to_string())],
            vec![DBField::Text("Jane".to_string())],
        ]
    );
}

#[test]
fn select_cols_unknown_column_fails() {
    let t = people();
    let r = t.select_cols(vec!["age".to_string()]);
    assert!(matches!(r, Err(DBError::ColumnNotFound(_))));
}

#[test]
fn where_conjunction_filters_rows() {
    let mut t = people();
    let rows = match run_sql("SELECT id, name FROM users WHERE id > 1 AND id < 3", &mut t) {
        Ok(QueryResult::Rows(rows)) => rows,
        other => panic!("expected rows, got {:?}", other),
    };
    assert_eq!(
        rows,
        vec![vec![DBField::Int(2), DBField::Text("Rob".to_string())]]
    );
}

#[test]
fn where_equal_on_text_matches() {
    let mut t = people();
    let rows = match run_sql("SELECT id FROM users WHERE name = 'Jane'", &mut t) {
        Ok(QueryResult::Rows(rows)) => rows,
        other => panic!("expected rows, got {:?}", other),
    };
    assert_eq!(rows, vec![vec![DBField::Int(3)]]);
}

#[test]
fn unknown_column_fails_and_produces_no_rows() {
    let mut t = people();
    let r = run_sql("SELECT ghost FROM users", &mut t);
    match r {
        Err(QueryError::Db(DBError::ColumnNotFound(_))) => {},
        other => panic!("expected a missing-column error, got {:?}", other),
    }
}

#[test]
fn invalid_comparison_aborts_query() {
    let mut t = people();
    let r = run_sql("SELECT id FROM users WHERE name > 'A'", &mut t);
    match r {
        Err(QueryError::Engine(minidb::EngineError::InvalidComparison)) => {},
        other => panic!("expected an invalid comparison, got {:?}", other),
    }
}

#[test]
fn sql_insert_appends_row() {
    let mut t = people();
    let r = run_sql("INSERT INTO users (id, name) VALUES (6, 'Zoe')", &mut t).unwrap();
    assert!(matches!(r, QueryResult::Empty));
    assert_eq!(t.entries.len(), 4);
    assert_eq!(
        t.entries[3],
        vec![DBField::Int(6), DBField::Text("Zoe".to_string())]
    );
}

#[test]
fn sql_insert_mistyped_value_fails() {
    let mut t = people();
    let r = run_sql("INSERT INTO users (id, name) VALUES ('x', 'Zoe')", &mut t);
    assert!(matches!(
        r,
        Err(QueryError::Db(DBError::MistypedInsertInput(_, _)))
    ));
    assert_eq!(t.entries.len(), 3);
}

#[test]
fn or_expression_keeps_either_side() {
    let mut t = people();
    let rows = match run_sql("SELECT name FROM users WHERE id = 1 OR id = 3", &mut t) {
        Ok(QueryResult::Rows(rows)) => rows,
        other => panic!("expected rows, got {:?}", other),
    };
    assert_eq!(
        rows,
        vec![
            vec![DBField::Text("Alice".to_string())],
            vec![DBField::Text("Jane".to_string())],
        ]
    );
}
