use flatsql::ast::{BinaryOperator, Expr, SelectItem, Value};
use flatsql::commands::{parse_select_columns, project_fields, render_row};
use flatsql::common::Column;
use flatsql::error::EngineError;

fn s(text: &str) -> String {
    text.to_string()
}

fn strings(texts: &[&str]) -> Vec<String> {
    texts.iter().map(|text| text.to_string()).collect()
}

fn named(name: &str) -> SelectItem {
    SelectItem::UnnamedExpr(Expr::Identifier(s(name)))
}

fn col(index: usize, name: &str) -> Column {
    Column { index, name: s(name) }
}

#[test]
fn wildcard_expands_to_every_column_in_order() {
    let header = strings(&["id", "name", "age"]);
    assert_eq!(
        parse_select_columns(&header, &vec![SelectItem::Wildcard]),
        Ok(vec![col(0, "id"), col(1, "name"), col(2, "age")])
    );
}

#[test]
fn names_select_in_the_order_asked() {
    let header = strings(&["id", "name", "age"]);
    assert_eq!(
        parse_select_columns(&header, &vec![named("age"), named("id"), named("age")]),
        Ok(vec![col(2, "age"), col(0, "id"), col(2, "age")])
    );
}

#[test]
fn a_name_selects_every_column_that_carries_it() {
    let header = strings(&["a", "b", "a"]);
    assert_eq!(
        parse_select_columns(&header, &vec![named("a")]),
        Ok(vec![col(0, "a"), col(2, "a")])
    );
}

#[test]
fn a_name_without_column_selects_nothing() {
    let header = strings(&["id", "name"]);
    assert_eq!(parse_select_columns(&header, &vec![named("nope")]), Ok(vec![]));
    assert_eq!(parse_select_columns(&header, &vec![named("ID")]), Ok(vec![]));
    assert_eq!(
        parse_select_columns(&header, &vec![named("nope"), named("name")]),
        Ok(vec![col(1, "name")])
    );
}

#[test]
fn a_column_called_star_is_selected_by_name() {
    let header = strings(&["a", "*"]);
    assert_eq!(parse_select_columns(&header, &vec![named("*")]), Ok(vec![col(1, "*")]));
}

#[test]
fn wildcard_and_names_together() {
    let header = strings(&["a", "b"]);
    assert_eq!(
        parse_select_columns(&header, &vec![named("b"), SelectItem::Wildcard]),
        Ok(vec![col(1, "b"), col(0, "a"), col(1, "b")])
    );
}

#[test]
fn empty_projection_and_empty_header() {
    assert_eq!(parse_select_columns(&strings(&["a"]), &vec![]), Ok(vec![]));
    assert_eq!(parse_select_columns(&vec![], &vec![SelectItem::Wildcard]), Ok(vec![]));
}

#[test]
fn anything_else_is_refused() {
    let header = strings(&["a"]);
    let refused = |item: SelectItem| {
        assert_eq!(
            parse_select_columns(&header, &vec![named("a"), item]),
            Err(EngineError::UnsupportedProjection)
        );
    };
    refused(SelectItem::QualifiedWildcard(s("t")));
    refused(SelectItem::WildcardWithOptions);
    refused(SelectItem::ExprWithAlias { expr: Expr::Identifier(s("a")), alias: s("b") });
    refused(SelectItem::UnnamedExpr(Expr::Value(Value::Number(s("1")))));
    refused(SelectItem::UnnamedExpr(Expr::Unsupported));
    refused(SelectItem::UnnamedExpr(Expr::BinaryOp {
        left: Box::new(Expr::Identifier(s("a"))),
        op: BinaryOperator::Eq,
        right: Box::new(Expr::Identifier(s("a"))),
    }));
}

#[test]
fn fields_are_picked_by_position() {
    let fields = strings(&["1", "ann", "30"]);
    assert_eq!(
        project_fields(&fields, &vec![col(2, "age"), col(0, "id")]),
        strings(&["30", "1"])
    );
    assert_eq!(project_fields(&fields, &vec![]), strings(&[]));
}

#[test]
fn values_become_fields() {
    let values = vec![
        Expr::Value(Value::Number(s("1"))),
        Expr::Value(Value::SingleQuotedString(s("alice"))),
        Expr::Value(Value::Null),
    ];
    assert_eq!(render_row(&values), Ok(strings(&["1", "alice", ""])));
    assert_eq!(render_row(&vec![]), Ok(vec![]));
    assert_eq!(
        render_row(&vec![Expr::Value(Value::Null), Expr::Unsupported]),
        Err(EngineError::UnsupportedValue)
    );
}
