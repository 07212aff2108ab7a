use flatsql::ast::{
    BinaryOperator, ColumnDef, Expr, Query, Select, SelectItem, SetExpr, TableFactor,
    TableWithJoins, Value,
};
use flatsql::commands::{create_table, delete, insert, select};
use flatsql::common::ResultSet;
use flatsql::error::EngineError;
use flatsql::storage::DataRoot;
use flatsql::utils::check_table_name;

fn s(text: &str) -> String {
    text.to_string()
}

fn strings(texts: &[&str]) -> Vec<String> {
    texts.iter().map(|text| text.to_string()).collect()
}

fn column(name: &str) -> ColumnDef {
    ColumnDef { name: s(name), data_type: s("TEXT") }
}

fn number(text: &str) -> Expr {
    Expr::Value(Value::Number(s(text)))
}

fn quoted(text: &str) -> Expr {
    Expr::Value(Value::SingleQuotedString(s(text)))
}

fn binary(left: Expr, op: BinaryOperator, right: Expr) -> Expr {
    Expr::BinaryOp { left: Box::new(left), op, right: Box::new(right) }
}

fn ident(name: &str) -> Expr {
    Expr::Identifier(s(name))
}

fn query_of(table: &str, projection: Vec<SelectItem>) -> Query {
    Query {
        body: SetExpr::Select(Select {
            projection,
            from: vec![TableWithJoins {
                relation: TableFactor::Table { name: s(table) },
                joins: vec![],
            }],
        }),
    }
}

fn select_all(table: &str) -> Query {
    query_of(table, vec![SelectItem::Wildcard])
}

fn content(data: &DataRoot, file: &str) -> Option<String> {
    data.read(&s(file)).cloned()
}

fn root_with(file: &str, text: &str) -> DataRoot {
    let mut data = DataRoot::new();
    data.write(s(file), s(text));
    data
}

#[test]
fn users_table_from_creation_to_deletion() {
    let mut data = DataRoot::new();
    create_table(s("users"), vec![column("id"), column("name")], &mut data);
    assert_eq!(content(&data, "users.txt"), Some(s("id,name")));

    let inserted = insert(
        s("users"),
        strings(&["id", "name"]),
        vec![number("1"), quoted("alice")],
        &mut data,
    );
    assert_eq!(inserted, Ok(()));
    assert_eq!(content(&data, "users.txt"), Some(s("id,name\n1,alice\n")));

    let selected = select(select_all("users"), &data);
    assert_eq!(
        selected,
        Ok(ResultSet { header: strings(&["id", "name"]), rows: vec![strings(&["1", "alice"])] })
    );

    let deleted =
        delete(s("users"), Some(binary(ident("id"), BinaryOperator::Eq, number("1"))), &mut data);
    assert_eq!(deleted, Ok(vec![]));
    assert_eq!(content(&data, "users.txt"), Some(s("id,name\n")));
    assert_eq!(
        select(select_all("users"), &data),
        Ok(ResultSet { header: strings(&["id", "name"]), rows: vec![] })
    );
}

#[test]
fn created_table_reads_back_with_its_columns_and_no_rows() {
    let mut data = DataRoot::new();
    create_table(s("t"), vec![column("a"), column("b"), column("c")], &mut data);
    assert_eq!(
        select(select_all("t"), &data),
        Ok(ResultSet { header: strings(&["a", "b", "c"]), rows: vec![] })
    );
}

#[test]
fn create_replaces_a_table_of_the_same_name() {
    let mut data = root_with("t.txt", "a,b\n1,2\n");
    create_table(s("t"), vec![column("x")], &mut data);
    assert_eq!(content(&data, "t.txt"), Some(s("x")));
    assert_eq!(data.file_names(), strings(&["t.txt"]));
}

#[test]
fn create_without_columns_writes_an_empty_file() {
    let mut data = DataRoot::new();
    create_table(s("t"), vec![], &mut data);
    assert_eq!(content(&data, "t.txt"), Some(s("")));
    assert_eq!(select(select_all("t"), &data), Ok(ResultSet { header: vec![], rows: vec![] }));
}

#[test]
fn create_leaves_other_tables_alone() {
    let mut data = root_with("a.txt", "x\n1\n");
    create_table(s("b"), vec![column("y")], &mut data);
    assert_eq!(content(&data, "a.txt"), Some(s("x\n1\n")));
    assert_eq!(content(&data, "b.txt"), Some(s("y")));
}

#[test]
fn inserted_row_is_the_last_row_of_a_select() {
    let mut data = root_with("t.txt", "id,name,age\n1,ann,30\n");
    let outcome = insert(
        s("t"),
        strings(&["id", "name", "age"]),
        vec![number("2"), quoted("bob"), number("41")],
        &mut data,
    );
    assert_eq!(outcome, Ok(()));
    assert_eq!(
        select(select_all("t"), &data),
        Ok(ResultSet {
            header: strings(&["id", "name", "age"]),
            rows: vec![strings(&["1", "ann", "30"]), strings(&["2", "bob", "41"])],
        })
    );
}

#[test]
fn insert_closes_an_open_last_line_first() {
    let mut data = root_with("t.txt", "a\n1");
    assert_eq!(insert(s("t"), strings(&["a"]), vec![number("2")], &mut data), Ok(()));
    assert_eq!(content(&data, "t.txt"), Some(s("a\n1\n2\n")));
}

#[test]
fn insert_keeps_the_order_of_the_values() {
    let mut data = root_with("t.txt", "id,name\n");
    let outcome =
        insert(s("t"), strings(&["name", "id"]), vec![quoted("ann"), number("7")], &mut data);
    assert_eq!(outcome, Ok(()));
    assert_eq!(content(&data, "t.txt"), Some(s("id,name\nann,7\n")));
}

#[test]
fn insert_accepts_more_columns_than_the_table_has() {
    let mut data = root_with("t.txt", "id\n");
    let outcome = insert(s("t"), strings(&["id", "extra"]), vec![number("1")], &mut data);
    assert_eq!(outcome, Ok(()));
    assert_eq!(content(&data, "t.txt"), Some(s("id\n1\n")));
}

#[test]
fn insert_writes_literals_as_plain_text() {
    let mut data = root_with("t.txt", "a,b,c,d\n");
    let outcome = insert(
        s("t"),
        strings(&["a", "b", "c", "d"]),
        vec![
            Expr::Value(Value::Boolean(true)),
            Expr::Value(Value::Null),
            Expr::Value(Value::DoubleQuotedString(s("x y"))),
            Expr::Value(Value::Boolean(false)),
        ],
        &mut data,
    );
    assert_eq!(outcome, Ok(()));
    assert_eq!(content(&data, "t.txt"), Some(s("a,b,c,d\ntrue,,x y,false\n")));
}

#[test]
fn insert_rejects_incomplete_column_list() {
    let mut data = root_with("t.txt", "id,name,age\n");
    let outcome =
        insert(s("t"), strings(&["id", "name"]), vec![number("1"), quoted("ann")], &mut data);
    assert_eq!(outcome, Err(EngineError::IncompleteColumnList));
    assert_eq!(content(&data, "t.txt"), Some(s("id,name,age\n")));
}

#[test]
fn insert_rejects_a_value_that_is_no_literal() {
    let mut data = root_with("t.txt", "id,name\n");
    let outcome =
        insert(s("t"), strings(&["id", "name"]), vec![number("1"), ident("other")], &mut data);
    assert_eq!(outcome, Err(EngineError::UnsupportedValue));
    assert_eq!(content(&data, "t.txt"), Some(s("id,name\n")));
}

#[test]
fn insert_checks_the_columns_before_the_values() {
    let mut data = root_with("t.txt", "id,name\n");
    let outcome = insert(s("t"), strings(&["id"]), vec![ident("other")], &mut data);
    assert_eq!(outcome, Err(EngineError::IncompleteColumnList));
}

#[test]
fn insert_into_a_missing_table_fails() {
    let mut data = root_with("t.txt", "id\n");
    let outcome = insert(s("u"), strings(&["id"]), vec![number("1")], &mut data);
    assert_eq!(outcome, Err(EngineError::TableNotFound));
    assert_eq!(data.file_names(), strings(&["t.txt"]));
}

#[test]
fn select_from_a_missing_table_fails() {
    let data = DataRoot::new();
    assert_eq!(select(select_all("t"), &data), Err(EngineError::TableNotFound));
}

#[test]
fn delete_from_a_missing_table_fails() {
    let mut data = DataRoot::new();
    assert_eq!(delete(s("t"), None, &mut data), Err(EngineError::TableNotFound));
}

#[test]
fn select_rejects_queries_that_are_no_plain_select() {
    let data = root_with("t.txt", "a\n1\n");
    assert_eq!(
        select(Query { body: SetExpr::Other }, &data),
        Err(EngineError::UnsupportedQueryShape)
    );
    let no_source = Query {
        body: SetExpr::Select(Select { projection: vec![SelectItem::Wildcard], from: vec![] }),
    };
    assert_eq!(select(no_source, &data), Err(EngineError::UnsupportedQueryShape));
    let table = |name: &str| TableWithJoins {
        relation: TableFactor::Table { name: s(name) },
        joins: vec![],
    };
    let two_sources = Query {
        body: SetExpr::Select(Select {
            projection: vec![SelectItem::Wildcard],
            from: vec![table("t"), table("t")],
        }),
    };
    assert_eq!(select(two_sources, &data), Err(EngineError::UnsupportedQueryShape));
    let joined = Query {
        body: SetExpr::Select(Select {
            projection: vec![SelectItem::Wildcard],
            from: vec![TableWithJoins {
                relation: TableFactor::Table { name: s("t") },
                joins: vec![TableFactor::Table { name: s("t") }],
            }],
        }),
    };
    assert_eq!(select(joined, &data), Err(EngineError::UnsupportedQueryShape));
    let derived = Query {
        body: SetExpr::Select(Select {
            projection: vec![SelectItem::Wildcard],
            from: vec![TableWithJoins { relation: TableFactor::Other, joins: vec![] }],
        }),
    };
    assert_eq!(select(derived, &data), Err(EngineError::UnsupportedQueryShape));
}

#[test]
fn query_shape_is_checked_before_the_table() {
    let data = DataRoot::new();
    assert_eq!(
        select(Query { body: SetExpr::Other }, &data),
        Err(EngineError::UnsupportedQueryShape)
    );
}

#[test]
fn select_projects_named_columns_in_the_order_asked() {
    let data = root_with("t.txt", "id,name,age\n1,ann,30\n2,bob,41\n");
    let query = query_of(
        "t",
        vec![SelectItem::UnnamedExpr(ident("age")), SelectItem::UnnamedExpr(ident("id"))],
    );
    assert_eq!(
        select(query, &data),
        Ok(ResultSet {
            header: strings(&["age", "id"]),
            rows: vec![strings(&["30", "1"]), strings(&["41", "2"])],
        })
    );
}

#[test]
fn select_of_an_unknown_column_selects_nothing() {
    let data = root_with("t.txt", "id,name\n1,ann\n");
    let query = query_of("t", vec![SelectItem::UnnamedExpr(ident("nope"))]);
    assert_eq!(select(query, &data), Ok(ResultSet { header: vec![], rows: vec![vec![]] }));
}

#[test]
fn select_rejects_unsupported_projection_items() {
    let data = root_with("t.txt", "id,name\n1,ann\n");
    let items = vec![
        SelectItem::QualifiedWildcard(s("t")),
        SelectItem::WildcardWithOptions,
        SelectItem::ExprWithAlias { expr: ident("id"), alias: s("x") },
        SelectItem::UnnamedExpr(number("1")),
        SelectItem::UnnamedExpr(binary(ident("id"), BinaryOperator::Eq, number("1"))),
    ];
    for item in items {
        let query = query_of("t", vec![SelectItem::Wildcard, item]);
        assert_eq!(select(query, &data), Err(EngineError::UnsupportedProjection));
    }
}

#[test]
fn select_of_a_header_only_table_has_no_rows() {
    let data = root_with("t.txt", "id,name\n");
    assert_eq!(
        select(select_all("t"), &data),
        Ok(ResultSet { header: strings(&["id", "name"]), rows: vec![] })
    );
}

#[test]
fn select_of_an_empty_file_is_empty_whatever_is_projected() {
    let data = root_with("t.txt", "");
    let query = query_of("t", vec![SelectItem::QualifiedWildcard(s("t"))]);
    assert_eq!(select(query, &data), Ok(ResultSet { header: vec![], rows: vec![] }));
}

#[test]
fn select_reports_a_line_with_a_wrong_number_of_fields() {
    let data = root_with("t.txt", "id,name\n1,ann\n2\n");
    assert_eq!(select(select_all("t"), &data), Err(EngineError::RecordParseError));
    let longer = root_with("t.txt", "id,name\n1,ann,x\n");
    assert_eq!(select(select_all("t"), &longer), Err(EngineError::RecordParseError));
}

#[test]
fn select_does_not_change_the_data_root() {
    let data = root_with("t.txt", "id\n1\n");
    let _ = select(select_all("t"), &data);
    assert_eq!(content(&data, "t.txt"), Some(s("id\n1\n")));
}

#[test]
fn delete_keeps_the_rows_that_do_not_pass() {
    let mut data = root_with("t.txt", "id,age\n1,30\n2,12\n3,45\n4,18");
    let predicate = binary(ident("age"), BinaryOperator::Gt, number("18"));
    assert_eq!(delete(s("t"), Some(predicate), &mut data), Ok(vec![]));
    assert_eq!(content(&data, "t.txt"), Some(s("id,age\n2,12\n4,18\n")));
    assert_eq!(
        select(select_all("t"), &data),
        Ok(ResultSet {
            header: strings(&["id", "age"]),
            rows: vec![strings(&["2", "12"]), strings(&["4", "18"])],
        })
    );
}

#[test]
fn delete_without_predicate_removes_every_row() {
    let mut data = root_with("t.txt", "id,age\n1,30\n2,12\n");
    assert_eq!(delete(s("t"), None, &mut data), Ok(vec![]));
    assert_eq!(content(&data, "t.txt"), Some(s("id,age\n")));
    assert_eq!(
        select(select_all("t"), &data),
        Ok(ResultSet { header: strings(&["id", "age"]), rows: vec![] })
    );
}

#[test]
fn delete_skips_and_reports_malformed_lines() {
    let mut data = root_with("t.txt", "id,age\n1,30\nbroken\n2,12\n3,4,5\n");
    let predicate = binary(ident("age"), BinaryOperator::Gt, number("18"));
    assert_eq!(delete(s("t"), Some(predicate), &mut data), Ok(vec![2, 4]));
    assert_eq!(content(&data, "t.txt"), Some(s("id,age\n2,12\n")));
}

#[test]
fn delete_on_non_numeric_field_fails_and_leaves_table_unmodified() {
    let text = "id,age\n1,30\n2,thirty\n3,10\n";
    let mut data = root_with("t.txt", text);
    let predicate = binary(ident("age"), BinaryOperator::Gt, number("18"));
    assert_eq!(delete(s("t"), Some(predicate), &mut data), Err(EngineError::TypeMismatch));
    assert_eq!(content(&data, "t.txt"), Some(s(text)));
}

#[test]
fn delete_with_an_unknown_column_fails() {
    let text = "id,age\n1,30\n";
    let mut data = root_with("t.txt", text);
    let predicate = binary(ident("height"), BinaryOperator::Eq, number("18"));
    assert_eq!(delete(s("t"), Some(predicate), &mut data), Err(EngineError::UnknownColumn));
    assert_eq!(content(&data, "t.txt"), Some(s(text)));
}

#[test]
fn delete_on_a_table_without_rows_judges_nothing() {
    let mut data = root_with("t.txt", "id,age");
    let predicate = binary(ident("height"), BinaryOperator::Eq, number("18"));
    assert_eq!(delete(s("t"), Some(predicate), &mut data), Ok(vec![]));
    assert_eq!(content(&data, "t.txt"), Some(s("id,age\n")));
}

#[test]
fn delete_on_an_empty_file_changes_nothing() {
    let mut data = root_with("t.txt", "");
    assert_eq!(delete(s("t"), None, &mut data), Ok(vec![]));
    assert_eq!(content(&data, "t.txt"), Some(s("")));
}

#[test]
fn delete_reports_the_failure_of_the_first_line_that_fails() {
    let mut data = root_with("t.txt", "a,b\nx,1\n1,y\n");
    let predicate = binary(
        binary(ident("a"), BinaryOperator::Gt, number("0")),
        BinaryOperator::Other,
        binary(ident("b"), BinaryOperator::Gt, number("0")),
    );
    assert_eq!(delete(s("t"), Some(predicate), &mut data), Err(EngineError::TypeMismatch));
}

#[test]
fn table_lookup_tells_file_and_header() {
    let data = root_with("users.txt", "id,name\n1,ann\n");
    let found = check_table_name(s("users"), &data).unwrap();
    assert_eq!(found.file_name, "users.txt");
    assert_eq!(found.header, strings(&["id", "name"]));
    assert_eq!(check_table_name(s("user"), &data), Err(EngineError::TableNotFound));
    assert_eq!(check_table_name(s("users.txt"), &data), Err(EngineError::TableNotFound));
    assert_eq!(data.file_names(), strings(&["users.txt"]));
}

#[test]
fn table_lookup_of_an_empty_file_has_no_columns() {
    let data = root_with("t.txt", "");
    assert_eq!(check_table_name(s("t"), &data).unwrap().header, Vec::<String>::new());
}

#[test]
fn data_root_keeps_the_latest_content_of_each_file() {
    let mut data = DataRoot::new();
    assert!(!data.contains(&s("a")));
    assert_eq!(data.read(&s("a")), None);
    data.write(s("a"), s("1"));
    data.write(s("b"), s("2"));
    data.write(s("a"), s("3"));
    assert!(data.contains(&s("a")));
    assert_eq!(content(&data, "a"), Some(s("3")));
    assert_eq!(content(&data, "b"), Some(s("2")));
    assert_eq!(data.file_names(), strings(&["a", "b"]));
}

#[test]
fn every_error_has_its_message() {
    assert_eq!(EngineError::TableNotFound.message(), "Table does not exist");
    assert_eq!(
        EngineError::IncompleteColumnList.message(),
        "Insert statement doesn't contain all necessary columns"
    );
    assert_eq!(
        EngineError::UnsupportedValue.message(),
        "Only values are supported in insert statement"
    );
    assert_eq!(
        EngineError::UnsupportedQueryShape.message(),
        "Expected a select from a single table"
    );
    assert_eq!(
        EngineError::UnsupportedProjection.message(),
        "Only column names and * can be selected"
    );
    assert_eq!(EngineError::UnknownColumn.message(), "Column does not exist");
    assert_eq!(EngineError::UnsupportedOperator.message(), "Operator not supported");
    assert_eq!(EngineError::UnsupportedExpression.message(), "Expression not supported");
    assert_eq!(EngineError::TypeMismatch.message(), "Value not a number");
    assert_eq!(EngineError::RecordParseError.message(), "Row does not match the table header");
}
