use stardust_db::ast::{ForeignKeyAction, JoinConstraint, JoinOperator, SelectQuery, SqlQuery, TableJoins};
use stardust_db::data_types::{Type, Value};
use stardust_db::error::{Error, ExecutionError};
use stardust_db::query_process::{
    comma_names, numbered, parse_create_table, parse_expression, parse_number, parse_table_joins,
    parse_value, process_query, Assignment, BinaryOperator, ColumnDef, ColumnOption,
    ColumnOptionDef, DataType, Expr, Join, Literal, OrderByExpr, Query, ReferentialAction, Select,
    SelectItem, SetExpr, Statement, TableConstraint, TableFactor, TableWithJoins,
};

fn column(name: &str, data_type: DataType, options: Vec<ColumnOption>) -> ColumnDef {
    ColumnDef {
        name: name.to_string(),
        data_type,
        options: options
            .into_iter()
            .map(|option| ColumnOptionDef { name: None, option })
            .collect(),
    }
}

fn number(text: &str) -> Expr {
    Expr::Value(Literal::Number(text.to_string()))
}

fn names(list: &[&str]) -> Vec<String> {
    list.iter().map(|n| n.to_string()).collect()
}

fn table(name: &str, alias: Option<&str>) -> TableFactor {
    TableFactor::Table {
        name: name.to_string(),
        alias: alias.map(|a| a.to_string()),
    }
}

#[test]
fn numbers_are_signed_decimal_digits() {
    assert_eq!(parse_number("0"), Some(0));
    assert_eq!(parse_number("0042"), Some(42));
    assert_eq!(parse_number("-17"), Some(-17));
    assert_eq!(parse_number("+17"), Some(17));
    assert_eq!(parse_number("9223372036854775807"), Some(i64::MAX));
    assert_eq!(parse_number("-9223372036854775808"), Some(i64::MIN));
    assert_eq!(parse_number("9223372036854775808"), None);
    assert_eq!(parse_number("-9223372036854775809"), None);
    assert_eq!(parse_number(""), None);
    assert_eq!(parse_number("-"), None);
    assert_eq!(parse_number("12a"), None);
    assert_eq!(parse_number("1.5"), None);
}

#[test]
fn literals_become_values() {
    assert_eq!(
        parse_value(Literal::SingleQuotedString("a".to_string())).unwrap(),
        Value::from("a")
    );
    assert_eq!(
        parse_value(Literal::DoubleQuotedString("b".to_string())).unwrap(),
        Value::from("b")
    );
    assert_eq!(parse_value(Literal::Number("12".to_string())).unwrap(), Value::from(12));
    assert_eq!(parse_value(Literal::Boolean(true)).unwrap(), Value::from(1));
    assert_eq!(parse_value(Literal::Boolean(false)).unwrap(), Value::from(0));
    assert_eq!(parse_value(Literal::Null).unwrap(), Value::Null);
    assert!(matches!(
        parse_value(Literal::Number("1e3".to_string())),
        Err(Error::Internal(_))
    ));
}

#[test]
fn expressions_keep_their_shape() {
    let expression = Expr::BinaryOp {
        left: Box::new(Expr::CompoundIdentifier(names(&["db", "t", "a"]))),
        op: BinaryOperator::Plus,
        right: Box::new(Expr::BinaryOp {
            left: Box::new(Expr::Identifier("b".to_string())),
            op: BinaryOperator::Modulus,
            right: Box::new(number("2")),
        }),
    };
    let parsed = parse_expression(expression).unwrap();
    assert_eq!(parsed.to_string(), "a + b % 2");
    let name = match parse_expression(Expr::CompoundIdentifier(names(&["t", "a"]))).unwrap() {
        stardust_db::ast::UnresolvedExpression::Identifier(name) => name,
        other => panic!("{:?}", other),
    };
    assert_eq!(name.table_name(), Some("t"));
    assert_eq!(name.column_name(), "a");
    assert!(parse_expression(Expr::CompoundIdentifier(vec![])).is_err());
    let failing = Expr::BinaryOp {
        left: Box::new(number("x")),
        op: BinaryOperator::And,
        right: Box::new(number("1")),
    };
    assert!(matches!(parse_expression(failing), Err(Error::Internal(_))));
}

#[test]
fn names_are_numbered_and_joined() {
    assert_eq!(numbered("__fkey", 0), "__fkey0");
    assert_eq!(numbered("__check", 120), "__check120");
    assert_eq!(comma_names(&names(&[])), "");
    assert_eq!(comma_names(&names(&["a"])), "a");
    assert_eq!(comma_names(&names(&["a", "b", "c"])), "a, b, c");
}

#[test]
fn create_table_gathers_constraints_in_order() {
    let columns = vec![
        column("a", DataType::Int, vec![ColumnOption::Unique { is_primary: true }]),
        column(
            "b",
            DataType::String,
            vec![
                ColumnOption::NotNull,
                ColumnOption::Default(Expr::Value(Literal::SingleQuotedString("x".to_string()))),
                ColumnOption::Check(Expr::Identifier("b".to_string())),
                ColumnOption::ForeignKey {
                    foreign_table: "p".to_string(),
                    referred_columns: names(&["n"]),
                    on_delete: Some(ReferentialAction::Restrict),
                    on_update: None,
                },
            ],
        ),
        column("c", DataType::Int, vec![ColumnOption::Unique { is_primary: false }]),
    ];
    let constraints = vec![
        TableConstraint::Unique {
            name: None,
            columns: names(&["c", "a"]),
            is_primary: false,
        },
        TableConstraint::Unique {
            name: Some("named".to_string()),
            columns: names(&["b"]),
            is_primary: false,
        },
        TableConstraint::ForeignKey {
            name: None,
            columns: names(&["a", "c"]),
            foreign_table: "q".to_string(),
            referred_columns: names(&["x", "y"]),
            on_delete: Some(ReferentialAction::Cascade),
            on_update: Some(ReferentialAction::SetNull),
        },
        TableConstraint::Check {
            name: None,
            expr: number("1"),
        },
        TableConstraint::Check {
            name: Some("positive".to_string()),
            expr: number("2"),
        },
        TableConstraint::Check {
            name: None,
            expr: number("3"),
        },
        TableConstraint::ForeignKey {
            name: Some("link".to_string()),
            columns: names(&["a"]),
            foreign_table: "r".to_string(),
            referred_columns: names(&["z"]),
            on_delete: Some(ReferentialAction::SetDefault),
            on_update: Some(ReferentialAction::NoAction),
        },
    ];
    let statement = parse_create_table("t".to_string(), columns, constraints, true).unwrap();
    assert_eq!(statement.name, "t");
    assert!(statement.if_not_exists);
    assert_eq!(statement.columns.len(), 3);
    assert_eq!(statement.columns[0].name, "a");
    assert_eq!(statement.columns[0].data_type, Type::Integer);
    assert!(!statement.columns[0].not_null);
    assert!(statement.columns[0].default.is_none());
    assert_eq!(statement.columns[1].data_type, Type::String);
    assert!(statement.columns[1].not_null);
    assert_eq!(statement.columns[1].default.as_ref().unwrap().to_string(), "x");
    assert_eq!(statement.primary_key, Some((vec![0], "a".to_string())));
    assert_eq!(
        statement.uniques,
        vec![
            (vec![2], "c".to_string()),
            (vec![0, 2], "c, a".to_string()),
            (vec![1], "named".to_string()),
        ]
    );
    let checks: Vec<(String, String)> = statement
        .checks
        .iter()
        .map(|(check, name)| (check.to_string(), name.clone()))
        .collect();
    assert_eq!(
        checks,
        vec![
            ("b".to_string(), "b".to_string()),
            ("1".to_string(), "__check0".to_string()),
            ("2".to_string(), "positive".to_string()),
            ("3".to_string(), "__check1".to_string()),
        ]
    );
    let keys = &statement.foreign_keys;
    assert_eq!(keys.len(), 3);
    assert_eq!(keys[0].name, "b");
    assert_eq!(keys[0].columns, names(&["b"]));
    assert_eq!(keys[0].foreign_table, "p");
    assert_eq!(keys[0].referred_columns, names(&["n"]));
    assert_eq!(keys[0].on_delete, Some(ForeignKeyAction::NoAction));
    assert_eq!(keys[0].on_update, None);
    assert_eq!(keys[1].name, "__fkey1");
    assert_eq!(keys[1].columns, names(&["a", "c"]));
    assert_eq!(keys[1].referred_columns, names(&["x", "y"]));
    assert_eq!(keys[1].on_delete, Some(ForeignKeyAction::Cascade));
    assert_eq!(keys[1].on_update, Some(ForeignKeyAction::SetNull));
    assert_eq!(keys[2].name, "link");
    assert_eq!(keys[2].on_delete, Some(ForeignKeyAction::SetDefault));
    assert_eq!(keys[2].on_update, Some(ForeignKeyAction::NoAction));
}

#[test]
fn create_table_reports_the_first_fault() {
    let twice_default = vec![column(
        "a",
        DataType::Int,
        vec![
            ColumnOption::Default(number("1")),
            ColumnOption::NotNull,
            ColumnOption::Default(number("2")),
            ColumnOption::NotNull,
        ],
    )];
    assert!(
        matches!(parse_create_table("t".to_string(), twice_default, vec![], false), Err(Error::Execution(ExecutionError::MultipleDefault(name))) if name == "a")
    );
    let twice_not_null = vec![column(
        "a",
        DataType::Int,
        vec![ColumnOption::NotNull, ColumnOption::NotNull],
    )];
    assert!(
        matches!(parse_create_table("t".to_string(), twice_not_null, vec![], false), Err(Error::Execution(ExecutionError::MultipleNotNull(name))) if name == "a")
    );
    let twice_unique = vec![column(
        "a",
        DataType::Int,
        vec![
            ColumnOption::Unique { is_primary: false },
            ColumnOption::Unique { is_primary: true },
        ],
    )];
    assert!(
        matches!(parse_create_table("t".to_string(), twice_unique, vec![], false), Err(Error::Execution(ExecutionError::MultipleUnique(name))) if name == "a")
    );
    let two_keys = vec![
        column("a", DataType::Int, vec![ColumnOption::Unique { is_primary: true }]),
        column("b", DataType::Int, vec![]),
    ];
    let second = vec![TableConstraint::Unique {
        name: None,
        columns: names(&["b"]),
        is_primary: true,
    }];
    assert!(
        matches!(parse_create_table("t".to_string(), two_keys, second, false), Err(Error::Execution(ExecutionError::MultiplePrimaryKey(name))) if name == "t")
    );
    let wide = vec![column(
        "a",
        DataType::Int,
        vec![ColumnOption::ForeignKey {
            foreign_table: "p".to_string(),
            referred_columns: names(&["x", "y"]),
            on_delete: None,
            on_update: None,
        }],
    )];
    assert!(matches!(
        parse_create_table("t".to_string(), wide, vec![], false),
        Err(Error::Execution(
            ExecutionError::IncorrectNumForeignKeyReferredColumns {
                expected: 1,
                found: 2
            }
        ))
    ));
    let uneven = vec![TableConstraint::ForeignKey {
        name: None,
        columns: names(&["a", "b", "c"]),
        foreign_table: "p".to_string(),
        referred_columns: names(&["x"]),
        on_delete: None,
        on_update: None,
    }];
    assert!(matches!(
        parse_create_table("t".to_string(), vec![], uneven, false),
        Err(Error::Execution(
            ExecutionError::IncorrectNumForeignKeyReferredColumns {
                expected: 3,
                found: 1
            }
        ))
    ));
    let unknown = vec![TableConstraint::Unique {
        name: None,
        columns: names(&["a", "zz"]),
        is_primary: false,
    }];
    assert!(
        matches!(parse_create_table("t".to_string(), vec![column("a", DataType::Int, vec![])], unknown, false), Err(Error::Execution(ExecutionError::NoColumn(name))) if name == "zz")
    );
}

#[test]
fn from_clauses_become_nested_joins() {
    let from = vec![
        TableWithJoins {
            relation: table("a", None),
            joins: vec![
                Join {
                    relation: table("b", Some("x")),
                    join_operator: stardust_db::query_process::JoinOperator::LeftOuter(
                        stardust_db::query_process::JoinConstraint::Natural,
                    ),
                },
                Join {
                    relation: table("c", None),
                    join_operator: stardust_db::query_process::JoinOperator::CrossJoin,
                },
            ],
        },
        TableWithJoins {
            relation: table("d", None),
            joins: vec![],
        },
    ];
    let joins = parse_table_joins(from).unwrap().unwrap();
    assert_eq!(joins.table_names(), names(&["a", "x", "c", "d"]));
    match joins {
        TableJoins::Join {
            left,
            right,
            operator,
            constraint,
        } => {
            assert_eq!(operator, JoinOperator::Inner);
            assert!(matches!(constraint, JoinConstraint::Unconstrained));
            assert!(matches!(*right, TableJoins::Table(_)));
            match *left {
                TableJoins::Join {
                    left: inner,
                    operator,
                    constraint,
                    ..
                } => {
                    assert_eq!(operator, JoinOperator::Inner);
                    assert!(matches!(constraint, JoinConstraint::Unconstrained));
                    match *inner {
                        TableJoins::Join {
                            operator,
                            constraint,
                            ..
                        } => {
                            assert_eq!(operator, JoinOperator::Left);
                            assert!(matches!(constraint, JoinConstraint::Natural));
                        }
                        other => panic!("{:?}", other),
                    }
                }
                other => panic!("{:?}", other),
            }
        }
        other => panic!("{:?}", other),
    }
    assert!(parse_table_joins(vec![]).unwrap().is_none());
    let twice = vec![
        TableWithJoins {
            relation: table("a", None),
            joins: vec![],
        },
        TableWithJoins {
            relation: table("b", Some("a")),
            joins: vec![],
        },
    ];
    assert!(
        matches!(parse_table_joins(twice), Err(Error::Execution(ExecutionError::DuplicateTableName(name))) if name == "a")
    );
}

#[test]
fn statements_are_told_apart() {
    let insert = process_query(Statement::Insert {
        table_name: "t".to_string(),
        columns: vec![],
        source: Query {
            body: SetExpr::Values(vec![vec![number("1"), number("2")], vec![number("3")]]),
            order_by: vec![],
        },
    })
    .unwrap();
    match insert {
        SqlQuery::Insert(insert) => {
            assert_eq!(insert.table.name, "t");
            assert!(insert.columns.is_none());
            match insert.values {
                SelectQuery::Values(values) => {
                    assert_eq!(values.rows.len(), 2);
                    assert_eq!(values.rows[0].len(), 2);
                    assert_eq!(values.rows[1][0].to_string(), "3");
                }
                other => panic!("{:?}", other),
            }
        }
        other => panic!("{:?}", other),
    }
    let named = process_query(Statement::Insert {
        table_name: "t".to_string(),
        columns: names(&["b", "a"]),
        source: Query {
            body: SetExpr::Values(vec![]),
            order_by: vec![],
        },
    })
    .unwrap();
    assert!(matches!(named, SqlQuery::Insert(insert) if insert.columns == Some(names(&["b", "a"]))));
    let drop = process_query(Statement::Drop {
        if_exists: true,
        names: names(&["a", "b"]),
    })
    .unwrap();
    assert!(matches!(drop, SqlQuery::DropTable(drop) if drop.if_exists && drop.names == names(&["a", "b"])));
    let delete = process_query(Statement::Delete {
        table_name: "t".to_string(),
        selection: Some(number("1")),
    })
    .unwrap();
    assert!(
        matches!(delete, SqlQuery::Delete(delete) if delete.table_name == "t" && delete.predicate.as_ref().unwrap().to_string() == "1")
    );
    let update = process_query(Statement::Update {
        table_name: "t".to_string(),
        assignments: vec![
            Assignment {
                id: "a".to_string(),
                value: number("1"),
            },
            Assignment {
                id: "b".to_string(),
                value: Expr::Identifier("a".to_string()),
            },
        ],
        selection: None,
    })
    .unwrap();
    match update {
        SqlQuery::Update(update) => {
            assert_eq!(update.table_name, "t");
            assert!(update.filter.is_none());
            assert_eq!(update.assignments.len(), 2);
            assert_eq!(update.assignments[0].0, "a");
            assert_eq!(update.assignments[1].0, "b");
            assert_eq!(update.assignments[1].1.to_string(), "a");
        }
        other => panic!("{:?}", other),
    }
    let select = process_query(Statement::Query(Query {
        body: SetExpr::Select(Select {
            projection: vec![
                SelectItem::Wildcard,
                SelectItem::QualifiedWildcard("t".to_string()),
                SelectItem::UnnamedExpr(number("1")),
                SelectItem::ExprWithAlias {
                    expr: number("2"),
                    alias: "two".to_string(),
                },
            ],
            from: vec![],
            selection: Some(number("1")),
        }),
        order_by: vec![
            OrderByExpr {
                expr: Expr::Identifier("a".to_string()),
                asc: None,
                nulls_first: None,
            },
            OrderByExpr {
                expr: Expr::Identifier("b".to_string()),
                asc: Some(false),
                nulls_first: Some(true),
            },
            OrderByExpr {
                expr: Expr::Identifier("c".to_string()),
                asc: Some(true),
                nulls_first: Some(false),
            },
        ],
    }))
    .unwrap();
    match select {
        SqlQuery::SelectQuery(SelectQuery::Select(select)) => {
            assert_eq!(select.projections.len(), 4);
            assert!(select.from.is_none());
            assert!(select.selection.is_some());
            let orders: Vec<(String, bool, bool)> = select
                .order_by
                .iter()
                .map(|o| {
                    (
                        o.expression.to_string(),
                        o.direction == stardust_db::ast::OrderByDirection::Descending,
                        o.nulls_first,
                    )
                })
                .collect();
            assert_eq!(
                orders,
                vec![
                    ("a".to_string(), false, false),
                    ("b".to_string(), true, true),
                    ("c".to_string(), false, false),
                ]
            );
        }
        other => panic!("{:?}", other),
    }
}
