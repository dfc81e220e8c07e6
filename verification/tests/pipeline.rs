use gluesql::ast::{
    ColumnDef, Expr, Join, JoinConstraint, JoinExecutor, JoinOperator, Query, Schema, Select,
    SelectItem, SetExpr, Statement, TableFactor, TableWithJoins,
};
use gluesql::error::Error;
use gluesql::evaluate::BinaryOperator;
use gluesql::fetch::{fetch, fetch_columns, FetchError, Filter};
use gluesql::literal::{AstLiteral, DataType};
use gluesql::store::{MemoryStore, Row, Store};
use gluesql::translate::{translate, CommandType, SelectStatement, SqlQuery};
use gluesql::validate::validate;
use gluesql::value::Value;

fn schema(table: &str, cols: &[(&str, DataType)]) -> Schema {
    Schema {
        table_name: table.to_owned(),
        column_defs: cols
            .iter()
            .map(|(n, t)| ColumnDef {
                name: (*n).to_owned(),
                data_type: *t,
                nullable: false,
            })
            .collect(),
    }
}

fn two_column_store() -> MemoryStore {
    let mut store = MemoryStore::new();
    let rows = vec![
        Row(vec![Value::I64(1), Value::Str("a".to_owned())]),
        Row(vec![Value::I64(2), Value::Str("b".to_owned())]),
        Row(vec![Value::I64(3), Value::Str("c".to_owned())]),
    ];
    store.add_table(
        schema("Item", &[("id", DataType::Int), ("name", DataType::Text)]),
        rows,
    );
    store.add_table(schema("Empty", &[("id", DataType::Int)]), vec![]);
    store
}

#[test]
fn scan_distinguishes_missing_from_empty() {
    let store = two_column_store();
    // a missing table is an error, never an empty sequence
    let r = store.scan_data("Nope");
    match r {
        Err(Error::Fetch(FetchError::TableNotFound(name))) => assert_eq!(name, "Nope"),
        other => panic!("expected a table-not-found error, got {:?}", other),
    }
    // an existing but empty table is an empty sequence, no error
    let r = store.scan_data("Empty").unwrap();
    assert!(r.is_empty());
}

#[test]
fn fetch_schema_absence_is_not_an_error() {
    let store = two_column_store();
    assert!(store.fetch_schema("Nope").unwrap().is_none());
    let s = store.fetch_schema("Item").unwrap().unwrap();
    assert_eq!(s.table_name, "Item");
    assert_eq!(s.column_defs.len(), 2);
    assert_eq!(store.fetch_all_schemas().unwrap().len(), 2);
}

#[test]
fn fetch_data_points_at_one_row() {
    let store = two_column_store();
    let row = store.fetch_data("Item", &1).unwrap().unwrap();
    assert!(matches!(row.0[0], Value::I64(2)));
    assert!(store.fetch_data("Item", &99).unwrap().is_none());
}

#[test]
fn fetch_columns_lists_the_schema_columns() {
    let store = two_column_store();
    let cols = fetch_columns(&store, "Item").unwrap();
    assert_eq!(cols, vec!["id".to_owned(), "name".to_owned()]);
    let r = fetch_columns(&store, "Nope");
    match r {
        Err(Error::Fetch(FetchError::TableNotFound(name))) => assert_eq!(name, "Nope"),
        other => panic!("expected a table-not-found error, got {:?}", other),
    }
}

#[test]
fn three_records_filtered_in_scan_order() {
    let store = two_column_store();
    let columns = vec!["id".to_owned(), "name".to_owned()];
    // predicate: id > 1
    let filter = Filter {
        where_clause: Some(Expr::BinaryOp {
            left: Box::new(Expr::Identifier("id".to_owned())),
            op: BinaryOperator::Gt,
            right: Box::new(Expr::Literal(AstLiteral::Number("1".to_owned()))),
        }),
    };
    let rows = fetch(&store, "Item", &columns, &filter).unwrap();
    assert_eq!(rows.len(), 2);
    assert_eq!(rows[0].0, 1);
    assert!(matches!(rows[0].1 .0[0], Value::I64(2)));
    match &rows[0].1 .0[1] {
        Value::Str(s) => assert_eq!(s, "b"),
        other => panic!("expected text, got {:?}", other),
    }
    assert_eq!(rows[1].0, 2);
    assert!(matches!(rows[1].1 .0[0], Value::I64(3)));
    match &rows[1].1 .0[1] {
        Value::Str(s) => assert_eq!(s, "c"),
        other => panic!("expected text, got {:?}", other),
    }
    // no predicate keeps everything
    let all = fetch(&store, "Item", &columns, &Filter { where_clause: None }).unwrap();
    assert_eq!(all.len(), 3);
    // a missing table fails the fetch as a whole
    let r = fetch(&store, "Nope", &columns, &Filter { where_clause: None });
    match r {
        Err(Error::Fetch(FetchError::TableNotFound(name))) => assert_eq!(name, "Nope"),
        other => panic!("expected a table-not-found error, got {:?}", other),
    }
    // a failing predicate ends the whole fetch with that row's error
    let bad = Filter {
        where_clause: Some(Expr::Identifier("id".to_owned())),
    };
    let r = fetch(&store, "Item", &columns, &bad);
    assert!(matches!(
        r,
        Err(Error::Evaluate(
            gluesql::error::EvaluateError::BooleanTypeRequired(_)
        ))
    ));
}

fn join_select(projected: &str) -> Statement {
    Statement::Query(Query {
        body: SetExpr::Select(Box::new(Select {
            projection: vec![SelectItem::Expr {
                expr: Expr::Identifier(projected.to_owned()),
                label: String::new(),
            }],
            from: TableWithJoins {
                relation: TableFactor::Table {
                    name: "X".to_owned(),
                    alias: None,
                    index: None,
                },
                joins: vec![Join {
                    relation: TableFactor::Table {
                        name: "Y".to_owned(),
                        alias: None,
                        index: None,
                    },
                    join_operator: JoinOperator::Inner(JoinConstraint::Absent),
                    join_executor: JoinExecutor::NestedLoop,
                }],
            },
            selection: None,
            group_by: Vec::new(),
            having: None,
        })),
        order_by: Vec::new(),
        limit: None,
        offset: None,
    })
}

#[test]
fn validate_rejects_ambiguous_columns() {
    // both X and Y define column a
    let schemas = vec![
        schema("X", &[("a", DataType::Int)]),
        schema("Y", &[("a", DataType::Int), ("b", DataType::Int)]),
    ];
    let r = validate(&schemas, join_select("a"));
    match r {
        Err(Error::Select(gluesql::error::SelectError::ColumnReferenceAmbiguous(name))) => {
            assert_eq!(name, "a")
        }
        other => panic!("expected an ambiguity error, got {:?}", other),
    }
    // only X defines a: the statement passes through unchanged
    let schemas = vec![
        schema("X", &[("a", DataType::Int)]),
        schema("Y", &[("b", DataType::Int)]),
    ];
    let stmt = join_select("a");
    let expected = join_select("a");
    let r = validate(&schemas, stmt).unwrap();
    assert_eq!(r, expected);
}

#[test]
fn translate_maps_each_statement_kind() {
    let q = SqlQuery::Select(SelectStatement {
        tables: vec!["T".to_owned()],
        where_clause: None,
    });
    match translate(q).unwrap() {
        CommandType::Select(name, filter) => {
            assert_eq!(name, "T");
            assert!(filter.where_clause.is_none());
        }
        other => panic!("expected a select command, got {:?}", other),
    }
    let q = SqlQuery::Select(SelectStatement {
        tables: vec![],
        where_clause: None,
    });
    assert!(matches!(
        translate(q),
        Err(Error::Translate(
            gluesql::error::TranslateError::StatementHasNoTable
        ))
    ));
    assert!(matches!(
        translate(SqlQuery::Other),
        Err(Error::Translate(
            gluesql::error::TranslateError::UnsupportedQuery
        ))
    ));
}
