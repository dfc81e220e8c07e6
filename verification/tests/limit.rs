use gluesql::ast::{
    Expr, Join, JoinConstraint, JoinExecutor, JoinOperator, Query, Select, SelectItem, SetExpr,
    Statement, TableFactor, TableWithJoins,
};
use gluesql::ast_builder::{col, num, table, Build, SelectItemList};
use gluesql::error::Error;
use gluesql::evaluate::BinaryOperator;
use gluesql::literal::AstLiteral;

fn render_expr(e: &Expr) -> String {
    match e {
        Expr::Identifier(s) => s.clone(),
        Expr::CompoundIdentifier(parts) => parts.join("."),
        Expr::Literal(AstLiteral::Number(s)) => s.clone(),
        Expr::Literal(AstLiteral::QuotedString(s)) => format!("'{}'", s),
        Expr::Literal(AstLiteral::Boolean(b)) => format!("{}", b),
        Expr::BinaryOp { left, op, right } => {
            let o = match op {
                BinaryOperator::Eq => "=",
                BinaryOperator::NotEq => "<>",
                BinaryOperator::Lt => "<",
                BinaryOperator::LtEq => "<=",
                BinaryOperator::Gt => ">",
                BinaryOperator::GtEq => ">=",
                _ => "?",
            };
            format!("{} {} {}", render_expr(left), o, render_expr(right))
        }
        _ => String::from("?"),
    }
}

fn render_relation(t: &TableFactor) -> String {
    let TableFactor::Table { name, alias, .. } = t;
    match alias {
        Some(a) => format!("{} AS {}", name, a),
        None => name.clone(),
    }
}

fn render(s: &Statement) -> String {
    let Statement::Query(q) = s;
    let SetExpr::Select(sel) = &q.body;
    let proj = sel
        .projection
        .iter()
        .map(|item| match item {
            SelectItem::Wildcard => String::from("*"),
            SelectItem::Expr { expr, .. } => render_expr(expr),
            SelectItem::QualifiedWildcard(t) => format!("{}.*", t),
        })
        .collect::<Vec<_>>()
        .join(", ");
    let mut out = format!("SELECT {} FROM {}", proj, render_relation(&sel.from.relation));
    for j in sel.from.joins.iter() {
        let kw = match &j.join_operator {
            JoinOperator::Inner(_) => "JOIN",
            JoinOperator::LeftOuter(_) => "LEFT JOIN",
        };
        out.push_str(&format!(" {} {}", kw, render_relation(&j.relation)));
        let c = match &j.join_operator {
            JoinOperator::Inner(c) => c,
            JoinOperator::LeftOuter(c) => c,
        };
        if let JoinConstraint::On(e) = c {
            out.push_str(&format!(" ON {}", render_expr(e)));
        }
    }
    if let Some(e) = &sel.selection {
        out.push_str(&format!(" WHERE {}", render_expr(e)));
    }
    if !sel.group_by.is_empty() {
        let g = sel.group_by.iter().map(render_expr).collect::<Vec<_>>().join(", ");
        out.push_str(&format!(" GROUP BY {}", g));
    }
    if let Some(e) = &sel.having {
        out.push_str(&format!(" HAVING {}", render_expr(e)));
    }
    if let Some(e) = &q.limit {
        out.push_str(&format!(" LIMIT {}", render_expr(e)));
    }
    if let Some(e) = &q.offset {
        out.push_str(&format!(" OFFSET {}", render_expr(e)));
    }
    out
}

fn test(actual: Result<Statement, Error>, expected: &str) {
    let stmt = actual.expect("build should succeed");
    assert_eq!(render(&stmt), expected);
}

#[test]
fn limit() {
    // select node -> limit node -> build
    let actual = table("Foo").select().limit(10).build();
    let expected = "SELECT * FROM Foo LIMIT 10";
    test(actual, expected);

    // group by node -> limit node -> build
    let actual = table("Foo").select().group_by("bar").limit(10).build();
    let expected = "SELECT * FROM Foo GROUP BY bar LIMIT 10";
    test(actual, expected);

    // having node -> limit node -> build
    let actual = table("Foo")
        .select()
        .group_by("bar")
        .having("bar = 10")
        .limit(10)
        .build();
    let expected = "SELECT * FROM Foo GROUP BY bar HAVING bar = 10 LIMIT 10";
    test(actual, expected);

    // join node -> limit node -> build
    let actual = table("Foo").select().join("Bar").limit(10).build();
    let expected = "SELECT * FROM Foo JOIN Bar LIMIT 10";
    test(actual, expected);

    // join node -> limit node -> build
    let actual = table("Foo").select().join_as("Bar", "B").limit(10).build();
    let expected = "SELECT * FROM Foo JOIN Bar AS B LIMIT 10";
    test(actual, expected);

    // join node -> limit node -> build
    let actual = table("Foo").select().left_join("Bar").limit(10).build();
    let expected = "SELECT * FROM Foo LEFT JOIN Bar LIMIT 10";
    test(actual, expected);

    // join node -> limit node -> build
    let actual = table("Foo")
        .select()
        .left_join_as("Bar", "B")
        .limit(10)
        .build();
    let expected = "SELECT * FROM Foo LEFT JOIN Bar AS B LIMIT 10";
    test(actual, expected);

    // group by node -> limit node -> build
    let actual = table("Foo").select().group_by("id").limit(10).build();
    let expected = "SELECT * FROM Foo GROUP BY id LIMIT 10";
    test(actual, expected);

    // having node -> limit node -> build
    let actual = table("Foo")
        .select()
        .group_by("id")
        .having(col("id").gt(10))
        .limit(10)
        .build();
    let expected = "SELECT * FROM Foo GROUP BY id HAVING id > 10 LIMIT 10";
    test(actual, expected);

    // join constraint node -> limit node -> build
    let actual = table("Foo")
        .select()
        .join("Bar")
        .on("Foo.id = Bar.id")
        .limit(10)
        .build();
    let expected = "SELECT * FROM Foo JOIN Bar ON Foo.id = Bar.id LIMIT 10";
    test(actual, expected);

    // filter node -> limit node -> build
    let actual = table("World")
        .select()
        .filter(col("id").gt(2))
        .limit(100)
        .build();
    let expected = "SELECT * FROM World WHERE id > 2 LIMIT 100";
    test(actual, expected);

    // hash join node -> limit node -> build
    let actual = table("Player")
        .select()
        .join("PlayerItem")
        .hash_executor("PlayerItem.user_id", "Player.id")
        .limit(100)
        .build();
    let expected = {
        let join = Join {
            relation: TableFactor::Table {
                name: "PlayerItem".to_owned(),
                alias: None,
                index: None,
            },
            join_operator: JoinOperator::Inner(JoinConstraint::Absent),
            join_executor: JoinExecutor::Hash {
                key_expr: col("PlayerItem.user_id").try_into().unwrap(),
                value_expr: col("Player.id").try_into().unwrap(),
                where_clause: None,
            },
        };
        let select = Select {
            projection: SelectItemList::from("*").try_into().unwrap(),
            from: TableWithJoins {
                relation: TableFactor::Table {
                    name: "Player".to_owned(),
                    alias: None,
                    index: None,
                },
                joins: vec![join],
            },
            selection: None,
            group_by: Vec::new(),
            having: None,
        };

        Ok(Statement::Query(Query {
            body: SetExpr::Select(Box::new(select)),
            order_by: Vec::new(),
            limit: Some(num(100).try_into().unwrap()),
            offset: None,
        }))
    };
    assert_eq!(actual, expected);
}
