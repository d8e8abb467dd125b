use sqlparser::ast as sql;
use sqlparser::dialect::GenericDialect;
use sqlparser::parser::Parser;
use stardust_db::data_types::{Type, Value};
use stardust_db::error::{Error, ExecutionError};
use stardust_db::interpreter::Interpreter;
use stardust_db::query_process as qp;
use stardust_db::query_process::process_query;
use stardust_db::relation::Relation;
use stardust_db::storage::Columns;
use stardust_db::table_definition::TableDefinition;
use stardust_db::table_handler::Tree;
use std::collections::HashMap;
use std::cell::RefCell;
use std::collections::HashSet;

struct TestDatabase {
    interpreter: RefCell<Interpreter>,
}

impl TestDatabase {
    fn execute_query(&self, text: &str) -> Result<Vec<Relation>, Error> {
        let dialect = GenericDialect {};
        let statements = Parser::parse_sql(&dialect, text).expect("the statements parse");
        let mut results = Vec::with_capacity(statements.len());
        for statement in statements {
            let processed_query = process_query(convert_statement(statement))?;
            results.push(self.interpreter.borrow_mut().execute(processed_query)?)
        }
        Ok(results)
    }
}

fn temp_db() -> TestDatabase {
    TestDatabase {
        interpreter: RefCell::new(Interpreter::new().unwrap()),
    }
}

fn set(rows: Vec<Vec<Value>>) -> HashSet<Vec<Value>> {
    rows.into_iter().collect()
}

fn assert_equals(relation: &Relation, rows: HashSet<Vec<Value>>, column_names: Vec<&str>) {
    assert_eq!(relation.rows().len(), rows.len());
    assert_eq!(relation.column_names(), &column_names);
    for row in relation.rows() {
        assert!(rows.contains(row));
    }
}

fn assert_equals_ordered(relation: &Relation, rows: Vec<Vec<Value>>, column_names: Vec<&str>) {
    assert_eq!(relation.rows(), &rows);
    assert_eq!(relation.column_names(), &column_names);
}

fn name_of(name: sql::ObjectName) -> String {
    name.to_string()
}

fn names_of(idents: Vec<sql::Ident>) -> Vec<String> {
    idents.into_iter().map(|i| i.to_string()).collect()
}

fn convert_value(value: sql::Value) -> qp::Literal {
    match value {
        sql::Value::SingleQuotedString(s) => qp::Literal::SingleQuotedString(s),
        sql::Value::DoubleQuotedString(s) => qp::Literal::DoubleQuotedString(s),
        sql::Value::Number(s, _) => qp::Literal::Number(s),
        sql::Value::Boolean(b) => qp::Literal::Boolean(b),
        sql::Value::Null => qp::Literal::Null,
        _ => panic!("not supported: {:?}", value),
    }
}

fn convert_operator(op: sql::BinaryOperator) -> qp::BinaryOperator {
    match op {
        sql::BinaryOperator::And => qp::BinaryOperator::And,
        sql::BinaryOperator::Or => qp::BinaryOperator::Or,
        sql::BinaryOperator::Eq => qp::BinaryOperator::Eq,
        sql::BinaryOperator::NotEq => qp::BinaryOperator::NotEq,
        sql::BinaryOperator::Lt => qp::BinaryOperator::Lt,
        sql::BinaryOperator::Gt => qp::BinaryOperator::Gt,
        sql::BinaryOperator::LtEq => qp::BinaryOperator::LtEq,
        sql::BinaryOperator::GtEq => qp::BinaryOperator::GtEq,
        sql::BinaryOperator::Plus => qp::BinaryOperator::Plus,
        sql::BinaryOperator::Minus => qp::BinaryOperator::Minus,
        sql::BinaryOperator::Multiply => qp::BinaryOperator::Multiply,
        sql::BinaryOperator::Divide => qp::BinaryOperator::Divide,
        sql::BinaryOperator::Modulo => qp::BinaryOperator::Modulus,
        _ => panic!("not supported: {:?}", op),
    }
}

fn convert_expr(expression: sql::Expr) -> qp::Expr {
    match expression {
        sql::Expr::Value(v) => qp::Expr::Value(convert_value(v)),
        sql::Expr::Identifier(i) => qp::Expr::Identifier(i.to_string()),
        sql::Expr::CompoundIdentifier(parts) => qp::Expr::CompoundIdentifier(names_of(parts)),
        sql::Expr::BinaryOp { left, op, right } => qp::Expr::BinaryOp {
            left: Box::new(convert_expr(*left)),
            op: convert_operator(op),
            right: Box::new(convert_expr(*right)),
        },
        _ => panic!("not supported: {:?}", expression),
    }
}

fn convert_constraint(constraint: sql::JoinConstraint) -> qp::JoinConstraint {
    match constraint {
        sql::JoinConstraint::On(e) => qp::JoinConstraint::On(convert_expr(e)),
        sql::JoinConstraint::Using(columns) => qp::JoinConstraint::Using(names_of(columns)),
        sql::JoinConstraint::Natural => qp::JoinConstraint::Natural,
        sql::JoinConstraint::None => qp::JoinConstraint::Unconstrained,
    }
}

fn convert_join_operator(operator: sql::JoinOperator) -> qp::JoinOperator {
    match operator {
        sql::JoinOperator::Inner(c) => qp::JoinOperator::Inner(convert_constraint(c)),
        sql::JoinOperator::LeftOuter(c) => qp::JoinOperator::LeftOuter(convert_constraint(c)),
        sql::JoinOperator::RightOuter(c) => qp::JoinOperator::RightOuter(convert_constraint(c)),
        sql::JoinOperator::CrossJoin => qp::JoinOperator::CrossJoin,
        _ => panic!("not supported: {:?}", operator),
    }
}

fn convert_factor(factor: sql::TableFactor) -> qp::TableFactor {
    match factor {
        sql::TableFactor::Table { name, alias, .. } => qp::TableFactor::Table {
            name: name_of(name),
            alias: alias.map(|a| a.name.to_string()),
        },
        sql::TableFactor::NestedJoin(join) => {
            qp::TableFactor::NestedJoin(Box::new(convert_with_joins(*join)))
        }
        _ => panic!("not supported: {:?}", factor),
    }
}

fn convert_with_joins(table: sql::TableWithJoins) -> qp::TableWithJoins {
    qp::TableWithJoins {
        relation: convert_factor(table.relation),
        joins: table
            .joins
            .into_iter()
            .map(|j| qp::Join {
                relation: convert_factor(j.relation),
                join_operator: convert_join_operator(j.join_operator),
            })
            .collect(),
    }
}

fn convert_item(item: sql::SelectItem) -> qp::SelectItem {
    match item {
        sql::SelectItem::UnnamedExpr(e) => qp::SelectItem::UnnamedExpr(convert_expr(e)),
        sql::SelectItem::ExprWithAlias { expr, alias } => qp::SelectItem::ExprWithAlias {
            expr: convert_expr(expr),
            alias: alias.to_string(),
        },
        sql::SelectItem::Wildcard => qp::SelectItem::Wildcard,
        sql::SelectItem::QualifiedWildcard(name) => qp::SelectItem::QualifiedWildcard(name_of(name)),
    }
}

fn convert_query(query: sql::Query) -> qp::Query {
    let body = match query.body {
        sql::SetExpr::Values(v) => qp::SetExpr::Values(
            v.0.into_iter()
                .map(|row| row.into_iter().map(convert_expr).collect())
                .collect(),
        ),
        sql::SetExpr::Select(s) => qp::SetExpr::Select(qp::Select {
            projection: s.projection.into_iter().map(convert_item).collect(),
            from: s.from.into_iter().map(convert_with_joins).collect(),
            selection: s.selection.map(convert_expr),
        }),
        other => panic!("not supported: {:?}", other),
    };
    let order_by = query
        .order_by
        .into_iter()
        .map(|o| qp::OrderByExpr {
            expr: convert_expr(o.expr),
            asc: o.asc,
            nulls_first: o.nulls_first,
        })
        .collect();
    qp::Query { body, order_by }
}

fn convert_action(action: sql::ReferentialAction) -> qp::ReferentialAction {
    match action {
        sql::ReferentialAction::Restrict => qp::ReferentialAction::Restrict,
        sql::ReferentialAction::Cascade => qp::ReferentialAction::Cascade,
        sql::ReferentialAction::SetNull => qp::ReferentialAction::SetNull,
        sql::ReferentialAction::NoAction => qp::ReferentialAction::NoAction,
        sql::ReferentialAction::SetDefault => qp::ReferentialAction::SetDefault,
    }
}

fn convert_data_type(data_type: sql::DataType) -> qp::DataType {
    match data_type {
        sql::DataType::String => qp::DataType::String,
        sql::DataType::Int(_) => qp::DataType::Int,
        _ => panic!("not supported: {:?}", data_type),
    }
}

fn convert_option(option: sql::ColumnOptionDef) -> qp::ColumnOptionDef {
    let what = match option.option {
        sql::ColumnOption::Default(e) => qp::ColumnOption::Default(convert_expr(e)),
        sql::ColumnOption::NotNull => qp::ColumnOption::NotNull,
        sql::ColumnOption::Unique { is_primary } => qp::ColumnOption::Unique { is_primary },
        sql::ColumnOption::ForeignKey {
            foreign_table,
            referred_columns,
            on_delete,
            on_update,
        } => qp::ColumnOption::ForeignKey {
            foreign_table: name_of(foreign_table),
            referred_columns: names_of(referred_columns),
            on_delete: on_delete.map(convert_action),
            on_update: on_update.map(convert_action),
        },
        sql::ColumnOption::Check(e) => qp::ColumnOption::Check(convert_expr(e)),
        other => panic!("not supported: {:?}", other),
    };
    qp::ColumnOptionDef {
        name: option.name.map(|n| n.to_string()),
        option: what,
    }
}

fn convert_column(column: sql::ColumnDef) -> qp::ColumnDef {
    qp::ColumnDef {
        name: column.name.to_string(),
        data_type: convert_data_type(column.data_type),
        options: column.options.into_iter().map(convert_option).collect(),
    }
}

fn convert_table_constraint(constraint: sql::TableConstraint) -> qp::TableConstraint {
    match constraint {
        sql::TableConstraint::Unique {
            name,
            columns,
            is_primary,
        } => qp::TableConstraint::Unique {
            name: name.map(|n| n.to_string()),
            columns: names_of(columns),
            is_primary,
        },
        sql::TableConstraint::ForeignKey {
            name,
            columns,
            foreign_table,
            referred_columns,
            on_delete,
            on_update,
        } => qp::TableConstraint::ForeignKey {
            name: name.map(|n| n.to_string()),
            columns: names_of(columns),
            foreign_table: name_of(foreign_table),
            referred_columns: names_of(referred_columns),
            on_delete: on_delete.map(convert_action),
            on_update: on_update.map(convert_action),
        },
        sql::TableConstraint::Check { name, expr } => qp::TableConstraint::Check {
            name: name.map(|n| n.to_string()),
            expr: convert_expr(*expr),
        },
    }
}

fn convert_statement(statement: sql::Statement) -> qp::Statement {
    match statement {
        sql::Statement::CreateTable {
            name,
            columns,
            constraints,
            if_not_exists,
            ..
        } => qp::Statement::CreateTable {
            name: name_of(name),
            columns: columns.into_iter().map(convert_column).collect(),
            constraints: constraints
                .into_iter()
                .map(convert_table_constraint)
                .collect(),
            if_not_exists,
        },
        sql::Statement::Insert {
            table_name,
            columns,
            source,
            ..
        } => qp::Statement::Insert {
            table_name: name_of(table_name),
            columns: names_of(columns),
            source: convert_query(*source),
        },
        sql::Statement::Drop {
            object_type: sql::ObjectType::Table,
            if_exists,
            names,
            ..
        } => qp::Statement::Drop {
            if_exists,
            names: names.into_iter().map(name_of).collect(),
        },
        sql::Statement::Query(q) => qp::Statement::Query(convert_query(*q)),
        sql::Statement::Delete {
            table_name,
            selection,
        } => qp::Statement::Delete {
            table_name: name_of(table_name),
            selection: selection.map(convert_expr),
        },
        sql::Statement::Update {
            table_name,
            assignments,
            selection,
        } => qp::Statement::Update {
            table_name: name_of(table_name),
            assignments: assignments
                .into_iter()
                .map(|a| qp::Assignment {
                    id: a.id.to_string(),
                    value: convert_expr(a.value),
                })
                .collect(),
            selection: selection.map(convert_expr),
        },
        _ => panic!("not supported: {:?}", statement),
    }
}

#[test]
fn create_table() {
    let db = temp_db();
    let result = db
        .execute_query("CREATE TABLE test (name string);")
        .unwrap();
    assert_eq!(result.len(), 1);
    assert!(result[0].is_empty())
}

#[test]
fn select_empty_table() {
    let db = temp_db();
    let _ = db
        .execute_query("CREATE TABLE test (name string);")
        .unwrap();
    let result = db.execute_query("SELECT * FROM test;").unwrap();
    assert_eq!(result.len(), 1);
    assert_equals(&result[0], set(vec![]), vec!["name"])
}

#[test]
fn drop_table() {
    let db = temp_db();
    let _ = db
        .execute_query("CREATE TABLE test (name string);")
        .unwrap();
    let result = db.execute_query("SELECT * FROM test;").unwrap();
    assert_eq!(result.len(), 1);
    assert_equals(&result[0], set(vec![]), vec!["name"]);
    let _ = db.execute_query("DROP TABLE test;").unwrap();
    let result = db.execute_query("SELECT * FROM test;");
    assert!(matches!(result, Err(Error::Execution(ExecutionError::NoTable(err))) if err == "test"))
}

#[test]
fn drop_table_if_exists() {
    let db = temp_db();
    let _ = db
        .execute_query("CREATE TABLE test (name string);")
        .unwrap();
    let result = db.execute_query("SELECT * FROM test;").unwrap();
    assert_eq!(result.len(), 1);
    assert_equals(&result[0], set(vec![]), vec!["name"]);
    let _ = db.execute_query("DROP TABLE IF EXISTS test;").unwrap();
    let result = db.execute_query("SELECT * FROM test;");
    assert!(matches!(result, Err(Error::Execution(ExecutionError::NoTable(err))) if err == "test"))
}

#[test]
fn drop_table_doesnt_exist() {
    let db = temp_db();
    let result = db.execute_query("DROP TABLE test;");
    assert!(
        matches!(result, Err(Error::Execution(ExecutionError::NoTable(err))) if err == "test")
    )
}

#[test]
fn drop_table_if_exists_doesnt_exist() {
    let db = temp_db();
    let result = db.execute_query("DROP TABLE IF EXISTS test;").unwrap();
    assert_eq!(result.len(), 1);
    assert!(result[0].is_empty());
}

#[test]
fn insert_simple_string() {
    let db = temp_db();
    let _ = db
        .execute_query("CREATE TABLE test (name string);")
        .unwrap();
    let result = db
        .execute_query("INSERT INTO test VALUES ('User');")
        .unwrap();
    assert_eq!(result.len(), 1);
    assert!(result[0].is_empty())
}

#[test]
fn select_simple_string() {
    let db = temp_db();
    let _ = db
        .execute_query("CREATE TABLE test (name string);")
        .unwrap();
    let _ = db
        .execute_query("INSERT INTO test VALUES ('User');")
        .unwrap();
    let result = db.execute_query("SELECT * FROM test;").unwrap();
    assert_eq!(result.len(), 1);
    assert_equals(&result[0], set(vec![vec![Value::from("User")]]), vec!["name"])
}

#[test]
fn select_column_string() {
    let db = temp_db();
    let _ = db
        .execute_query("CREATE TABLE test (name string, age int);")
        .unwrap();
    let _ = db
        .execute_query("INSERT INTO test VALUES ('User', 25);")
        .unwrap();
    let result = db.execute_query("SELECT name FROM test;").unwrap();
    assert_eq!(result.len(), 1);
    assert_equals(&result[0], set(vec![vec![Value::from("User")]]), vec!["name"])
}

#[test]
fn insert_simple_int() {
    let db = temp_db();
    let _ = db.execute_query("CREATE TABLE test (age int);").unwrap();
    let result = db.execute_query("INSERT INTO test VALUES (25);").unwrap();
    assert_eq!(result.len(), 1);
    assert!(result[0].is_empty())
}

#[test]
fn select_simple_int() {
    let db = temp_db();
    let _ = db.execute_query("CREATE TABLE test (age int);").unwrap();
    let _ = db.execute_query("INSERT INTO test VALUES (25);").unwrap();
    let result = db.execute_query("SELECT * FROM test;").unwrap();
    assert_eq!(result.len(), 1);
    assert_equals(&result[0], set(vec![vec![Value::from(25)]]), vec!["age"])
}

#[test]
fn select_column_int() {
    let db = temp_db();
    let _ = db
        .execute_query("CREATE TABLE test (name string, age int);")
        .unwrap();
    let _ = db
        .execute_query("INSERT INTO test VALUES ('User', 25);")
        .unwrap();
    let result = db.execute_query("SELECT age FROM test;").unwrap();
    assert_eq!(result.len(), 1);
    assert_equals(&result[0], set(vec![vec![Value::from(25)]]), vec!["age"])
}

#[test]
fn select_multiple_columns() {
    let db = temp_db();
    let _ = db
        .execute_query("CREATE TABLE test (name string, age int);")
        .unwrap();
    let _ = db
        .execute_query("INSERT INTO test VALUES ('User', 25);")
        .unwrap();
    let result = db.execute_query("SELECT name, age FROM test;").unwrap();
    assert_eq!(result.len(), 1);
    assert_equals(&result[0], 
        set(vec![vec![Value::from("User"), Value::from(25)]]),
        vec!["name", "age"],
    )
}

#[test]
fn select_multiple_columns_wildcard() {
    let db = temp_db();
    let _ = db
        .execute_query("CREATE TABLE test (name string, age int);")
        .unwrap();
    let _ = db
        .execute_query("INSERT INTO test VALUES ('User', 25);")
        .unwrap();
    let result = db.execute_query("SELECT * FROM test;").unwrap();
    assert_eq!(result.len(), 1);
    assert_equals(&result[0], 
        set(vec![vec![Value::from("User"), Value::from(25)]]),
        vec!["name", "age"],
    )
}

#[test]
fn select_column_and_wildcard() {
    let db = temp_db();
    let _ = db
        .execute_query("CREATE TABLE test (name string, age int);")
        .unwrap();
    let _ = db
        .execute_query("INSERT INTO test VALUES ('User', 25);")
        .unwrap();
    let result = db.execute_query("SELECT name, * FROM test;").unwrap();
    assert_eq!(result.len(), 1);
    assert_equals(&result[0], 
        set(vec![vec![
            Value::from("User"),
            Value::from("User"),
            Value::from(25)
        ]]),
        vec!["name", "name", "age"],
    )
}

#[test]
fn insert_multiple_values_same_statement() {
    let db = temp_db();
    let _ = db
        .execute_query("CREATE TABLE test (name string, age int);")
        .unwrap();
    let result = db
        .execute_query("INSERT INTO test VALUES ('User', 25), ('User 2', 17);")
        .unwrap();
    assert_eq!(result.len(), 1);
    assert!(result[0].is_empty())
}

#[test]
fn insert_multiple_values_different_statements() {
    let db = temp_db();
    let _ = db
        .execute_query("CREATE TABLE test (name string, age int);")
        .unwrap();
    let result = db
        .execute_query("INSERT INTO test VALUES ('User', 25);")
        .unwrap();
    assert_eq!(result.len(), 1);
    assert!(result[0].is_empty());
    let result = db
        .execute_query("INSERT INTO test VALUES ('User 2', 17);")
        .unwrap();
    assert_eq!(result.len(), 1);
    assert!(result[0].is_empty())
}

#[test]
fn select_multiple_values_same_statement() {
    let db = temp_db();
    let _ = db
        .execute_query("CREATE TABLE test (name string, age int);")
        .unwrap();
    let _ = db
        .execute_query("INSERT INTO test VALUES ('User', 25), ('User 2', 17);")
        .unwrap();
    let result = db.execute_query("SELECT * FROM test;").unwrap();
    assert_eq!(result.len(), 1);
    assert_equals(&result[0], 
        set(vec![
            vec![Value::from("User"), Value::from(25)],
            vec![Value::from("User 2"), Value::from(17)]
        ]),
        vec!["name", "age"],
    )
}

#[test]
fn select_multiple_values_different_statements() {
    let db = temp_db();
    let _ = db
        .execute_query("CREATE TABLE test (name string, age int);")
        .unwrap();
    let _ = db
        .execute_query("INSERT INTO test VALUES ('User', 25);")
        .unwrap();
    let _ = db
        .execute_query("INSERT INTO test VALUES ('User 2', 17);")
        .unwrap();
    let result = db.execute_query("SELECT * FROM test;").unwrap();
    assert_eq!(result.len(), 1);
    assert_equals(&result[0], 
        set(vec![
            vec![Value::from("User"), Value::from(25)],
            vec![Value::from("User 2"), Value::from(17)]
        ]),
        vec!["name", "age"],
    )
}

#[test]
fn select_columns_alias() {
    let db = temp_db();
    let _ = db
        .execute_query("CREATE TABLE test (name string, age int);")
        .unwrap();
    let _ = db
        .execute_query("INSERT INTO test VALUES ('User', 25);")
        .unwrap();
    let result = db
        .execute_query("SELECT name AS eman, age AS ega FROM test;")
        .unwrap();
    assert_eq!(result.len(), 1);
    assert_equals(&result[0], 
        set(vec![vec![Value::from("User"), Value::from(25)]]),
        vec!["eman", "ega"],
    )
}

#[test]
fn select_expression() {
    let db = temp_db();
    let result = db.execute_query("SELECT 1 < 2;").unwrap();
    assert_eq!(result.len(), 1);
    assert_equals(&result[0], set(vec![vec![Value::from(1)]]), vec!["1 < 2"])
}

#[test]
fn select_expression_alias() {
    let db = temp_db();
    let result = db.execute_query("SELECT 1 < 2 AS sum;").unwrap();
    assert_eq!(result.len(), 1);
    assert_equals(&result[0], set(vec![vec![Value::from(1)]]), vec!["sum"])
}

#[test]
fn select_expression_from_table() {
    let db = temp_db();
    let _ = db
        .execute_query("CREATE TABLE test (name string, age int);")
        .unwrap();
    let _ = db
        .execute_query("INSERT INTO test VALUES ('User', 25);")
        .unwrap();
    let result = db.execute_query("SELECT 1 < 2 FROM test;").unwrap();
    assert_eq!(result.len(), 1);
    assert_equals(&result[0], set(vec![vec![Value::from(1)]]), vec!["1 < 2"])
}

#[test]
fn select_expression_from_empty_table() {
    let db = temp_db();
    let _ = db
        .execute_query("CREATE TABLE test (name string, age int);")
        .unwrap();
    let result = db.execute_query("SELECT 1 < 2 FROM test;").unwrap();
    assert_eq!(result.len(), 1);
    assert_equals(&result[0], set(vec![]), vec!["1 < 2"])
}

#[test]
fn insert_specific_values() {
    let db = temp_db();
    let _ = db
        .execute_query("CREATE TABLE test (name string, age int);")
        .unwrap();
    let _ = db
        .execute_query("INSERT INTO test (name, age) VALUES ('User', 25);")
        .unwrap();
    let result = db.execute_query("SELECT * FROM test;").unwrap();
    assert_eq!(result.len(), 1);
    assert_equals(&result[0], 
        set(vec![vec![Value::from("User"), Value::from(25)]]),
        vec!["name", "age"],
    )
}

#[test]
fn insert_specific_values_reverse_order() {
    let db = temp_db();
    let _ = db
        .execute_query("CREATE TABLE test (name string, age int);")
        .unwrap();
    let _ = db
        .execute_query("INSERT INTO test (age, name) VALUES (25, 'User');")
        .unwrap();
    let result = db.execute_query("SELECT * FROM test;").unwrap();
    assert_eq!(result.len(), 1);
    assert_equals(&result[0], 
        set(vec![vec![Value::from("User"), Value::from(25)]]),
        vec!["name", "age"],
    )
}

#[test]
fn insert_default_values() {
    let db = temp_db();
    let _ = db
        .execute_query("CREATE TABLE test (name string DEFAULT 'User', age int);")
        .unwrap();
    let _ = db
        .execute_query("INSERT INTO test (age) VALUES (25);")
        .unwrap();
    let result = db.execute_query("SELECT * FROM test;").unwrap();
    assert_eq!(result.len(), 1);
    assert_equals(&result[0], 
        set(vec![vec![Value::from("User"), Value::from(25)]]),
        vec!["name", "age"],
    )
}

#[test]
fn insert_check_valid() {
    let db = temp_db();
    let _ = db
        .execute_query("CREATE TABLE test (name string, age int, CHECK (age < 30));")
        .unwrap();
    let _ = db
        .execute_query("INSERT INTO test VALUES ('User', 25);")
        .unwrap();
    let result = db.execute_query("SELECT * FROM test;").unwrap();
    assert_eq!(result.len(), 1);
    assert_equals(&result[0], 
        set(vec![vec![Value::from("User"), Value::from(25)]]),
        vec!["name", "age"],
    )
}

#[test]
fn insert_check_invalid() {
    let db = temp_db();
    let _ = db
        .execute_query("CREATE TABLE test (name string, age int, CONSTRAINT young CHECK (age < 30));")
        .unwrap();
    let result = db.execute_query("INSERT INTO test VALUES ('User', 30);");
    assert!(
        matches!(result, Err(Error::Execution(ExecutionError::CheckConstraintFailed(err))) if err == "young")
    )
}

#[test]
fn insert_wrong_num_specified_columns() {
    let db = temp_db();
    let _ = db
        .execute_query("CREATE TABLE test (name string, age int);")
        .unwrap();
    let result = db.execute_query("INSERT INTO test (name) VALUES ('User', 23);");
    assert!(
        matches!(result, Err(Error::Execution(ExecutionError::WrongNumColumns { expected, actual })) if expected == 1 && actual == 2)
    )
}

#[test]
fn insert_incorrect_specified_columns() {
    let db = temp_db();
    let _ = db
        .execute_query("CREATE TABLE test (name string, age int);")
        .unwrap();
    let result = db.execute_query("INSERT INTO test (hobby) VALUES ('Running');");
    assert!(
        matches!(result, Err(Error::Execution(ExecutionError::NoColumn(column))) if column == "hobby")
    )
}

#[test]
fn delete_all() {
    let db = temp_db();
    let _ = db
        .execute_query("CREATE TABLE test (name string, age int);")
        .unwrap();
    let _ = db
        .execute_query(
            "INSERT INTO test VALUES ('User', 25), ('User2', 23);
        DELETE FROM test")
        .unwrap();
    let result = db.execute_query("SELECT * FROM test;").unwrap();
    assert_eq!(result.len(), 1);
    assert_equals(&result[0], 
        set(vec![]),
        vec!["name", "age"],
    )
}

#[test]
fn delete_predicate() {
    let db = temp_db();
    let _ = db
        .execute_query("CREATE TABLE test (name string, age int);")
        .unwrap();
    let _ = db
        .execute_query(
            "INSERT INTO test VALUES ('User', 25), ('User2', 23);
        DELETE FROM test WHERE age < 25")
        .unwrap();
    let result = db.execute_query("SELECT * FROM test;").unwrap();
    assert_eq!(result.len(), 1);
    assert_equals(&result[0], 
        set(vec![vec![Value::from("User"), Value::from(25)]]),
        vec!["name", "age"],
    )
}

#[test]
fn delete_none_predicate() {
    let db = temp_db();
    let _ = db
        .execute_query("CREATE TABLE test (name string, age int);")
        .unwrap();
    let _ = db
        .execute_query(
            "INSERT INTO test VALUES ('User', 25), ('User2', 23);
        DELETE FROM test WHERE age > 25")
        .unwrap();
    let result = db.execute_query("SELECT * FROM test;").unwrap();
    assert_eq!(result.len(), 1);
    assert_equals(&result[0], 
        set(vec![
            vec![Value::from("User"), Value::from(25)],
            vec![Value::from("User2"), Value::from(23)],
        ]),
        vec!["name", "age"],
    )
}

#[test]
fn delete_predicate_invalid_column() {
    let db = temp_db();
    let _ = db
        .execute_query("CREATE TABLE test (name string, age int);")
        .unwrap();
    let _ = db
        .execute_query("INSERT INTO test VALUES ('User', 25), ('User2', 23);")
        .unwrap();
    let result = db.execute_query("DELETE FROM test WHERE id > 25;");
    assert!(
        matches!(result, Err(Error::Execution(ExecutionError::NoColumn(column))) if column == "id")
    )
}

#[test]
fn select_multiple_tables() {
    let db = temp_db();
    let _ = db
        .execute_query(
            "CREATE TABLE people (name string, age int);
        INSERT INTO people VALUES ('Josh', 23), ('Rupert', 25);
        CREATE TABLE hobbies (name string, hobby string);
        INSERT INTO hobbies VALUES ('Josh', 'Music'), ('Hugh', 'Swimming');",
        )
        .unwrap();
    let result = db.execute_query("SELECT * FROM people, hobbies;").unwrap();
    assert_eq!(result.len(), 1);
    assert_equals(&result[0], 
        set(vec![
            vec![
                Value::from("Josh"),
                Value::from(23),
                Value::from("Josh"),
                Value::from("Music")
            ],
            vec![
                Value::from("Josh"),
                Value::from(23),
                Value::from("Hugh"),
                Value::from("Swimming")
            ],
            vec![
                Value::from("Rupert"),
                Value::from(25),
                Value::from("Josh"),
                Value::from("Music")
            ],
            vec![
                Value::from("Rupert"),
                Value::from(25),
                Value::from("Hugh"),
                Value::from("Swimming")
            ],
        ]),
        vec!["name", "age", "name", "hobby"],
    )
}

#[test]
fn select_multiple_tables_qualified_wildcard() {
    let db = temp_db();
    let _ = db
        .execute_query(
            "CREATE TABLE people (name string, age int);
        INSERT INTO people VALUES ('Josh', 23), ('Rupert', 25);
        CREATE TABLE hobbies (name string, hobby string);
        INSERT INTO hobbies VALUES ('Josh', 'Music'), ('Hugh', 'Swimming');",
        )
        .unwrap();
    let result = db.execute_query("SELECT people.*, hobbies.hobby FROM people, hobbies;").unwrap();
    assert_eq!(result.len(), 1);
    assert_equals(&result[0], 
        set(vec![
            vec![
                Value::from("Josh"),
                Value::from(23),
                Value::from("Music")
            ],
            vec![
                Value::from("Josh"),
                Value::from(23),
                Value::from("Swimming")
            ],
            vec![
                Value::from("Rupert"),
                Value::from(25),
                Value::from("Music")
            ],
            vec![
                Value::from("Rupert"),
                Value::from(25),
                Value::from("Swimming")
            ],
        ]),
        vec!["name", "age", "hobby"],
    )
}

#[test]
fn select_inner_join() {
    let db = temp_db();
    let _ = db
        .execute_query(
            "CREATE TABLE people (name string, age int);
        INSERT INTO people VALUES ('Josh', 23), ('Rupert', 25);
        CREATE TABLE hobbies (name string, hobby string);
        INSERT INTO hobbies VALUES ('Josh', 'Music'), ('Hugh', 'Swimming');",
        )
        .unwrap();
    let result = db
        .execute_query("SELECT * FROM people INNER JOIN hobbies;")
        .unwrap();
    assert_eq!(result.len(), 1);
    assert_equals(&result[0], 
        set(vec![
            vec![
                Value::from("Josh"),
                Value::from(23),
                Value::from("Josh"),
                Value::from("Music")
            ],
            vec![
                Value::from("Josh"),
                Value::from(23),
                Value::from("Hugh"),
                Value::from("Swimming")
            ],
            vec![
                Value::from("Rupert"),
                Value::from(25),
                Value::from("Josh"),
                Value::from("Music")
            ],
            vec![
                Value::from("Rupert"),
                Value::from(25),
                Value::from("Hugh"),
                Value::from("Swimming")
            ],
        ]),
        vec!["name", "age", "name", "hobby"],
    )
}

#[test]
fn select_inner_join_on() {
    let db = temp_db();
    let _ = db
        .execute_query(
            "CREATE TABLE people (name string, age int);
        INSERT INTO people VALUES ('Josh', 23), ('Rupert', 25), ('Hugh', 43);
        CREATE TABLE hobbies (name string, hobby string);
        INSERT INTO hobbies VALUES ('Josh', 'Music'), ('Hugh', 'Swimming'), ('Mike', 'Painting');",
        )
        .unwrap();
    let result = db
        .execute_query("SELECT * FROM people INNER JOIN hobbies ON people.name = hobbies.name;")
        .unwrap();
    assert_eq!(result.len(), 1);
    assert_equals(&result[0], 
        set(vec![
            vec![
                Value::from("Josh"),
                Value::from(23),
                Value::from("Josh"),
                Value::from("Music")
            ],
            vec![
                Value::from("Hugh"),
                Value::from(43),
                Value::from("Hugh"),
                Value::from("Swimming")
            ],
        ]),
        vec!["name", "age", "name", "hobby"],
    )
}

#[test]
fn select_natural_join() {
    let db = temp_db();
    let _ = db
        .execute_query(
            "CREATE TABLE people (name string, age int);
        INSERT INTO people VALUES ('Josh', 23), ('Rupert', 25), ('Hugh', 43);
        CREATE TABLE hobbies (name string, hobby string);
        INSERT INTO hobbies VALUES ('Josh', 'Music'), ('Hugh', 'Swimming'), ('Mike', 'Painting');",
        )
        .unwrap();
    let result = db
        .execute_query("SELECT * FROM people NATURAL JOIN hobbies;")
        .unwrap();
    assert_eq!(result.len(), 1);
    assert_equals(&result[0], 
        set(vec![
            vec![Value::from("Josh"), Value::from(23), Value::from("Music")],
            vec![
                Value::from("Hugh"),
                Value::from(43),
                Value::from("Swimming")
            ],
        ]),
        vec!["name", "age", "hobby"],
    )
}

#[test]
fn select_natural_join_no_common_columns() {
    let db = temp_db();
    let _ = db
        .execute_query(
            "CREATE TABLE people (name string, age int);
        INSERT INTO people VALUES ('Josh', 23), ('Rupert', 25), ('Hugh', 43);
        CREATE TABLE hobbies (name2 string, hobby string);
        INSERT INTO hobbies VALUES ('Josh', 'Music'), ('Hugh', 'Swimming'), ('Mike', 'Painting');",
        )
        .unwrap();
    let result = db
        .execute_query("SELECT * FROM people NATURAL JOIN hobbies;")
        .unwrap();
    assert_eq!(result.len(), 1);
    assert_equals(&result[0], 
        set(vec![
            vec![
                Value::from("Josh"),
                Value::from(23),
                Value::from("Josh"),
                Value::from("Music")
            ],
            vec![
                Value::from("Josh"),
                Value::from(23),
                Value::from("Hugh"),
                Value::from("Swimming")
            ],
            vec![
                Value::from("Josh"),
                Value::from(23),
                Value::from("Mike"),
                Value::from("Painting")
            ],
            vec![
                Value::from("Rupert"),
                Value::from(25),
                Value::from("Josh"),
                Value::from("Music")
            ],
            vec![
                Value::from("Rupert"),
                Value::from(25),
                Value::from("Hugh"),
                Value::from("Swimming")
            ],
            vec![
                Value::from("Rupert"),
                Value::from(25),
                Value::from("Mike"),
                Value::from("Painting")
            ],
            vec![
                Value::from("Hugh"),
                Value::from(43),
                Value::from("Josh"),
                Value::from("Music")
            ],
            vec![
                Value::from("Hugh"),
                Value::from(43),
                Value::from("Hugh"),
                Value::from("Swimming")
            ],
            vec![
                Value::from("Hugh"),
                Value::from(43),
                Value::from("Mike"),
                Value::from("Painting")
            ],
        ]),
        vec!["name", "age", "name2", "hobby"],
    )
}

#[test]
fn select_left_join_on() {
    let db = temp_db();
    let _ = db
        .execute_query(
            "CREATE TABLE people (name string, age int);
        INSERT INTO people VALUES ('Josh', 23), ('Rupert', 25), ('Hugh', 43);
        CREATE TABLE hobbies (name string, hobby string);
        INSERT INTO hobbies VALUES ('Josh', 'Music'), ('Hugh', 'Swimming'), ('Mike', 'Painting');",
        )
        .unwrap();
    let result = db
        .execute_query("SELECT * FROM people LEFT JOIN hobbies ON people.name = hobbies.name;")
        .unwrap();
    assert_eq!(result.len(), 1);
    assert_equals(&result[0], 
        set(vec![
            vec![
                Value::from("Josh"),
                Value::from(23),
                Value::from("Josh"),
                Value::from("Music")
            ],
            vec![
                Value::from("Hugh"),
                Value::from(43),
                Value::from("Hugh"),
                Value::from("Swimming")
            ],
            vec![
                Value::from("Rupert"),
                Value::from(25),
                Value::Null,
                Value::Null
            ],
        ]),
        vec!["name", "age", "name", "hobby"],
    )
}

#[test]
fn select_right_join_on() {
    let db = temp_db();
    let _ = db
        .execute_query(
            "CREATE TABLE people (name string, age int);
        INSERT INTO people VALUES ('Josh', 23), ('Rupert', 25), ('Hugh', 43);
        CREATE TABLE hobbies (name string, hobby string);
        INSERT INTO hobbies VALUES ('Josh', 'Music'), ('Hugh', 'Swimming'), ('Mike', 'Painting');",
        )
        .unwrap();
    let result = db
        .execute_query("SELECT * FROM people RIGHT JOIN hobbies ON people.name = hobbies.name;")
        .unwrap();
    assert_eq!(result.len(), 1);
    assert_equals(&result[0], 
        set(vec![
            vec![
                Value::from("Josh"),
                Value::from(23),
                Value::from("Josh"),
                Value::from("Music")
            ],
            vec![
                Value::from("Hugh"),
                Value::from(43),
                Value::from("Hugh"),
                Value::from("Swimming")
            ],
            vec![
                Value::Null,
                Value::Null,
                Value::from("Mike"),
                Value::from("Painting"),
            ],
        ]),
        vec!["name", "age", "name", "hobby"],
    )
}

#[test]
fn create_duplicate_table() {
    let db = temp_db();
    let _ = db
        .execute_query("CREATE TABLE test (name string, age int);")
        .unwrap();
    let result = db.execute_query("CREATE TABLE test (name string, age int);");
    assert!(
        matches!(result, Err(Error::Execution(ExecutionError::TableExists(err))) if err == "test")
    )
}

#[test]
fn create_duplicate_column() {
    let db = temp_db();
    let result = db.execute_query("CREATE TABLE test (name string, name int);");
    assert!(
        matches!(result, Err(Error::Execution(ExecutionError::ColumnExists(err))) if err == "name")
    )
}

#[test]
fn select_nonexistant_table() {
    let db = temp_db();
    let result = db.execute_query("SELECT * FROM test;");
    assert!(matches!(result, Err(Error::Execution(ExecutionError::NoTable(err))) if err == "test"))
}

#[test]
fn insert_too_few_columns() {
    let db = temp_db();
    let _ = db
        .execute_query("CREATE TABLE test (name string, age int);")
        .unwrap();
    let result = db.execute_query("INSERT INTO test VALUES ('User');");
    assert!(
        matches!(result, Err(Error::Execution(ExecutionError::WrongNumColumns{ expected, actual })) if expected == 2 && actual == 1)
    )
}

#[test]
fn insert_too_many_columns() {
    let db = temp_db();
    let _ = db
        .execute_query("CREATE TABLE test (name string, age int);")
        .unwrap();
    let result = db.execute_query("INSERT INTO test VALUES ('User', 25, 'Swimming');");
    assert!(
        matches!(result, Err(Error::Execution(ExecutionError::WrongNumColumns{ expected, actual })) if expected == 2 && actual == 3)
    )
}

#[test]
fn select_nonexistant_column() {
    let db = temp_db();
    let _ = db
        .execute_query("CREATE TABLE test (name string, age int);")
        .unwrap();
    let result = db.execute_query("SELECT invalid FROM test;");
    assert!(
        matches!(result, Err(Error::Execution(ExecutionError::NoColumn(err))) if err == "invalid")
    )
}

#[test]
fn select_ambiguous_column() {
    let db = temp_db();
    let _ = db
        .execute_query("CREATE TABLE test (name string, age int);")
        .unwrap();
    let _ = db
        .execute_query("INSERT INTO test VALUES ('User', 25);")
        .unwrap();
    let result = db.execute_query("SELECT name FROM test, test as test2;");
    assert!(
        matches!(result, Err(Error::Execution(ExecutionError::AmbiguousName(err))) if err == "name")
    )
}

#[test]
fn insert_not_null() {
    let db = temp_db();
    let _ = db
        .execute_query("CREATE TABLE test (name string NOT NULL);")
        .unwrap();
    let _ = db
        .execute_query("INSERT INTO test VALUES ('User');")
        .unwrap();
    let result = db.execute_query("SELECT * FROM test;").unwrap();
    assert_eq!(result.len(), 1);
    assert_equals(&result[0], set(vec![vec![Value::from("User")]]), vec!["name"])
}

#[test]
fn insert_null_to_not_null() {
    let db = temp_db();
    let _ = db
        .execute_query("CREATE TABLE test (name string NOT NULL);")
        .unwrap();
    let result = db.execute_query("INSERT INTO test VALUES (NULL);");
    assert!(
        matches!(result, Err(Error::Execution(ExecutionError::NullConstraintFailed(err))) if err == "name")
    )
}

#[test]
fn insert_unique() {
    let db = temp_db();
    let _ = db
        .execute_query("CREATE TABLE test (name string UNIQUE);")
        .unwrap();
    let _ = db
        .execute_query("INSERT INTO test VALUES ('User');")
        .unwrap();
    let result = db.execute_query("SELECT * FROM test;").unwrap();
    assert_eq!(result.len(), 1);
    assert_equals(&result[0], set(vec![vec![Value::from("User")]]), vec!["name"])
}

#[test]
fn insert_duplicate_to_unique() {
    let db = temp_db();
    let _ = db
        .execute_query("CREATE TABLE test (name string UNIQUE);")
        .unwrap();
    let _ = db
        .execute_query("INSERT INTO test VALUES ('User');")
        .unwrap();
    let result = db.execute_query("INSERT INTO test VALUES ('User');");
    assert!(
        matches!(result, Err(Error::Execution(ExecutionError::UniqueConstraintFailed(err))) if err == "name")
    )
}

#[test]
fn insert_duplicate_to_unique_separate_constraint() {
    let db = temp_db();
    let _ = db
        .execute_query("CREATE TABLE test (name string, UNIQUE(name));")
        .unwrap();
    let _ = db
        .execute_query("INSERT INTO test VALUES ('User');")
        .unwrap();
    let result = db.execute_query("INSERT INTO test VALUES ('User');");
    assert!(
        matches!(result, Err(Error::Execution(ExecutionError::UniqueConstraintFailed(err))) if err == "name")
    )
}

#[test]
fn insert_duplicate_to_unique_separate_constraint_multiple_values() {
    let db = temp_db();
    let _ = db
        .execute_query("CREATE TABLE test (name string, age int, UNIQUE(name, age));")
        .unwrap();
    let _ = db
        .execute_query("INSERT INTO test VALUES ('User', 25);")
        .unwrap();
    let _ = db
        .execute_query("INSERT INTO test VALUES ('User', 23);")
        .unwrap();
    let _ = db
        .execute_query("INSERT INTO test VALUES ('User2', 25);")
        .unwrap();
    let result = db.execute_query("INSERT INTO test VALUES ('User', 25);");
    assert!(
        matches!(result, Err(Error::Execution(ExecutionError::UniqueConstraintFailed(err))) if err == "name, age")
    )
}

#[test]
fn insert_duplicate_to_unique_named_constraint_multiple_values() {
    let db = temp_db();
    let _ = db
        .execute_query(
            "CREATE TABLE test (name string, age int, CONSTRAINT constraint UNIQUE(name, age));",
        )
        .unwrap();
    let _ = db
        .execute_query("INSERT INTO test VALUES ('User', 25);")
        .unwrap();
    let _ = db
        .execute_query("INSERT INTO test VALUES ('User', 23);")
        .unwrap();
    let _ = db
        .execute_query("INSERT INTO test VALUES ('User2', 25);")
        .unwrap();
    let result = db.execute_query("INSERT INTO test VALUES ('User', 25);");
    assert!(
        matches!(result, Err(Error::Execution(ExecutionError::UniqueConstraintFailed(err))) if err == "constraint")
    )
}

#[test]
fn insert_duplicate_to_primary_key() {
    let db = temp_db();
    let _ = db
        .execute_query("CREATE TABLE test (name string PRIMARY KEY, age int);")
        .unwrap();
    let _ = db
        .execute_query("INSERT INTO test VALUES ('User', 25);")
        .unwrap();
    let _ = db
        .execute_query("INSERT INTO test VALUES ('User2', 23);")
        .unwrap();
    let result = db.execute_query("INSERT INTO test VALUES ('User', 27);");
    assert!(
        matches!(result, Err(Error::Execution(ExecutionError::UniqueConstraintFailed(err))) if err == "name")
    )
}

#[test]
fn insert_duplicate_to_primary_key_constraint() {
    let db = temp_db();
    let _ = db
        .execute_query("CREATE TABLE test (name string, age int, PRIMARY KEY (name));")
        .unwrap();
    let _ = db
        .execute_query("INSERT INTO test VALUES ('User', 25);")
        .unwrap();
    let _ = db
        .execute_query("INSERT INTO test VALUES ('User2', 23);")
        .unwrap();
    let result = db.execute_query("INSERT INTO test VALUES ('User', 27);");
    assert!(
        matches!(result, Err(Error::Execution(ExecutionError::UniqueConstraintFailed(err))) if err == "name")
    )
}

#[test]
fn insert_duplicate_to_primary_key_named() {
    let db = temp_db();
    let _ = db
        .execute_query(
            "CREATE TABLE test (name string, age int, CONSTRAINT pkey PRIMARY KEY (name));",
        )
        .unwrap();
    let _ = db
        .execute_query("INSERT INTO test VALUES ('User', 25);")
        .unwrap();
    let _ = db
        .execute_query("INSERT INTO test VALUES ('User2', 23);")
        .unwrap();
    let result = db.execute_query("INSERT INTO test VALUES ('User', 27);");
    assert!(
        matches!(result, Err(Error::Execution(ExecutionError::UniqueConstraintFailed(err))) if err == "pkey")
    )
}

#[test]
fn insert_duplicate_to_primary_key_multiple_values() {
    let db = temp_db();
    let _ = db
        .execute_query(
            "CREATE TABLE test (name string, age int, CONSTRAINT pkey PRIMARY KEY (name, age));",
        )
        .unwrap();
    let _ = db
        .execute_query("INSERT INTO test VALUES ('User', 25);")
        .unwrap();
    let _ = db
        .execute_query("INSERT INTO test VALUES ('User', 23);")
        .unwrap();
    let result = db.execute_query("INSERT INTO test VALUES ('User', 23);");
    assert!(
        matches!(result, Err(Error::Execution(ExecutionError::UniqueConstraintFailed(err))) if err == "pkey")
    )
}

#[test]
fn insert_null_to_primary_key() {
    let db = temp_db();
    let _ = db
        .execute_query("CREATE TABLE test (name string PRIMARY KEY, age int);")
        .unwrap();
    let result = db.execute_query("INSERT INTO test VALUES (NULL, 27);");
    assert!(
        matches!(result, Err(Error::Execution(ExecutionError::NullConstraintFailed(err))) if err == "name")
    )
}

#[test]
fn insert_null_to_primary_key_constraint() {
    let db = temp_db();
    let _ = db
        .execute_query("CREATE TABLE test (name string, age int, PRIMARY KEY (name));")
        .unwrap();
    let result = db.execute_query("INSERT INTO test VALUES (NULL, 27);");
    assert!(
        matches!(result, Err(Error::Execution(ExecutionError::NullConstraintFailed(err))) if err == "name")
    )
}

#[test]
fn insert_null_to_primary_key_named() {
    let db = temp_db();
    let _ = db
        .execute_query(
            "CREATE TABLE test (name string, age int, CONSTRAINT pkey PRIMARY KEY (name));",
        )
        .unwrap();
    let result = db.execute_query("INSERT INTO test VALUES (NULL, 27);");
    assert!(
        matches!(result, Err(Error::Execution(ExecutionError::NullConstraintFailed(err))) if err == "pkey")
    )
}

#[test]
fn insert_null_to_primary_key_multiple_values() {
    let db = temp_db();
    let _ = db
        .execute_query(
            "CREATE TABLE test (name string, age int, CONSTRAINT pkey PRIMARY KEY (name, age));",
        )
        .unwrap();
    let result = db.execute_query("INSERT INTO test VALUES (NULL, 23);");
    assert!(
        matches!(result, Err(Error::Execution(ExecutionError::NullConstraintFailed(err))) if err == "pkey")
    );
    let result = db.execute_query("INSERT INTO test VALUES ('User', NULL);");
    assert!(
        matches!(result, Err(Error::Execution(ExecutionError::NullConstraintFailed(err))) if err == "pkey")
    )
}

#[test]
fn foreign_key_valid() {
    let db = temp_db();
    let _ = db
        .execute_query(
            "CREATE TABLE foreign (name string PRIMARY KEY);
            INSERT INTO foreign VALUES ('User');
            CREATE TABLE primary (name string, age int, CONSTRAINT fkey FOREIGN KEY (name) REFERENCES foreign(name))",
        )
        .unwrap();
    let result = db
        .execute_query("INSERT INTO primary VALUES ('User', 23);")
        .unwrap();
    assert_eq!(result.len(), 1);
    assert!(result[0].is_empty());
}

#[test]
fn foreign_key_not_unique() {
    let db = temp_db();
    let _ = db
        .execute_query("CREATE TABLE foreign (name string);")
        .unwrap();
    let result = db.execute_query("CREATE TABLE primary (name string, age int, CONSTRAINT fkey FOREIGN KEY (name) REFERENCES foreign(name));");
    assert!(
        matches!(result, Err(Error::Execution(ExecutionError::ForeignKeyNotUnique(key))) if key == "fkey")
    )
}

#[test]
fn foreign_key_wrong_type() {
    let db = temp_db();
    let _ = db
        .execute_query("CREATE TABLE foreign (name string UNIQUE);")
        .unwrap();
    let result = db.execute_query("CREATE TABLE primary (name string, age int, CONSTRAINT fkey FOREIGN KEY (age) REFERENCES foreign(name));");
    assert!(
        matches!(result, Err(Error::Execution(ExecutionError::IncorrectForeignKeyReferredColumnType { this_column_name, referred_column_name, this_column_type, referred_column_type })) if this_column_name == "age" && referred_column_name == "name" && this_column_type == Type::Integer && referred_column_type == Type::String)
    )
}

#[test]
fn foreign_key_missing() {
    let db = temp_db();
    let _ = db
        .execute_query(
            "CREATE TABLE foreign (name string UNIQUE);
            INSERT INTO foreign VALUES ('User');
            CREATE TABLE primary (name string, age int, CONSTRAINT fkey FOREIGN KEY (name) REFERENCES foreign(name))",
        )
        .unwrap();
    let result = db.execute_query("INSERT INTO primary VALUES ('Unknown', 23);");
    assert!(
        matches!(result, Err(Error::Execution(ExecutionError::ForeignKeyConstraintFailed(err))) if err == "fkey")
    )
}

#[test]
fn foreign_key_delete_referred() {
    let db = temp_db();
    let _ = db
        .execute_query(
            "CREATE TABLE foreign (name string PRIMARY KEY);
            INSERT INTO foreign VALUES ('User');
            CREATE TABLE primary (name string, age int, CONSTRAINT fkey FOREIGN KEY (name) REFERENCES foreign(name));
            INSERT INTO primary VALUES ('User', 23);",
        )
        .unwrap();
    let result = db.execute_query("DELETE FROM foreign WHERE name = 'User';");
    assert!(
        matches!(result, Err(Error::Execution(ExecutionError::ForeignKeyConstraintFailed(err))) if err == "fkey")
    )
}

#[test]
fn foreign_key_delete_set_default() {
    let db = temp_db();
    let _ = db
        .execute_query(
            "CREATE TABLE foreign (name string UNIQUE);
            INSERT INTO foreign VALUES ('User'), ('Gertrude');
            CREATE TABLE primary (name string DEFAULT 'Gertrude', age int, FOREIGN KEY (name) REFERENCES foreign(name) ON DELETE SET DEFAULT);
            INSERT INTO primary VALUES ('User', 23);
            DELETE FROM foreign WHERE name = 'User';",
        )
        .unwrap();
    let result = db.execute_query("SELECT * FROM primary").unwrap();
    assert_eq!(result.len(), 1);
    assert_equals(&result[0], 
        set(vec![vec!["Gertrude".into(), 23.into()]]),
        vec!["name", "age"],
    )
}

#[test]
fn foreign_key_delete_set_default_no_new_value() {
    let db = temp_db();
    let _ = db
        .execute_query(
            "CREATE TABLE foreign (name string UNIQUE);
            INSERT INTO foreign VALUES ('User');
            CREATE TABLE primary (name string DEFAULT 'Gertrude', age int, CONSTRAINT fkey FOREIGN KEY (name) REFERENCES foreign(name) ON DELETE SET DEFAULT);
            INSERT INTO primary VALUES ('User', 23);",
        )
        .unwrap();
    let result = db.execute_query("DELETE FROM foreign WHERE name = 'User'");
    assert!(
        matches!(result, Err(Error::Execution(ExecutionError::ForeignKeyConstraintFailed(key))) if key == "fkey")
    )
}

#[test]
fn foreign_key_delete_set_null() {
    let db = temp_db();
    let _ = db
        .execute_query(
            "CREATE TABLE foreign (name string UNIQUE);
            INSERT INTO foreign VALUES ('User');
            CREATE TABLE primary (name string, age int, FOREIGN KEY (name) REFERENCES foreign(name) ON DELETE SET NULL);
            INSERT INTO primary VALUES ('User', 23);
            DELETE FROM foreign WHERE name = 'User';",
        )
        .unwrap();
    let result = db.execute_query("SELECT * FROM primary").unwrap();
    assert_eq!(result.len(), 1);
    assert_equals(&result[0], set(vec![vec![Value::Null, 23.into()]]), vec!["name", "age"])
}

#[test]
fn foreign_key_delete_set_null_not_null() {
    let db = temp_db();
    let _ = db
        .execute_query(
            "CREATE TABLE foreign (name string UNIQUE);
            INSERT INTO foreign VALUES ('User');
            CREATE TABLE primary (name string NOT NULL, age int, FOREIGN KEY (name) REFERENCES foreign(name) ON DELETE SET NULL);
            INSERT INTO primary VALUES ('User', 23);",
        )
        .unwrap();
    let result = db.execute_query("DELETE FROM foreign WHERE name = 'User';");
    assert!(
        matches!(result, Err(Error::Execution(ExecutionError::NullConstraintFailed(key))) if key == "name")
    )
}

#[test]
fn update_single_value_no_condition() {
    let db = temp_db();
    let _ = db
        .execute_query(
            "CREATE TABLE test (name string);
            INSERT INTO test VALUES ('User');
            UPDATE test SET name = 'User2'",
        )
        .unwrap();
    let result = db.execute_query("SELECT * FROM test").unwrap();
    assert_eq!(result.len(), 1);
    assert_equals(&result[0], set(vec![vec!["User2".into()]]), vec!["name"])
}

#[test]
fn update_single_column_no_condition() {
    let db = temp_db();
    let _ = db
        .execute_query(
            "CREATE TABLE test (name string, age int);
            INSERT INTO test VALUES ('User', 23);
            UPDATE test SET name = 'User2'",
        )
        .unwrap();
    let result = db.execute_query("SELECT * FROM test").unwrap();
    assert_eq!(result.len(), 1);
    assert_equals(&result[0], set(vec![vec!["User2".into(), 23.into()]]), vec!["name", "age"])
}

#[test]
fn update_single_row() {
    let db = temp_db();
    let _ = db
        .execute_query(
            "CREATE TABLE test (name string, age int);
            INSERT INTO test VALUES ('User', 23), ('User2', 27);
            UPDATE test SET age = 25 WHERE name = 'User'",
        )
        .unwrap();
    let result = db.execute_query("SELECT * FROM test").unwrap();
    assert_eq!(result.len(), 1);
    assert_equals(&result[0], set(vec![
        vec!["User".into(), 25.into()],
        vec!["User2".into(), 27.into()],
    ]), vec!["name", "age"])
}

#[test]
fn update_multiple_rows() {
    let db = temp_db();
    let _ = db
        .execute_query(
            "CREATE TABLE test (name string, age int);
            INSERT INTO test VALUES ('User', 23), ('User2', 27);
            UPDATE test SET age = 25",
        )
        .unwrap();
    let result = db.execute_query("SELECT * FROM test").unwrap();
    assert_eq!(result.len(), 1);
    assert_equals(&result[0], set(vec![
        vec!["User".into(), 25.into()],
        vec!["User2".into(), 25.into()],
    ]), vec!["name", "age"])
}

#[test]
fn update_self_referential() {
    let db = temp_db();
    let _ = db
        .execute_query(
            "CREATE TABLE test (name string, age int);
            INSERT INTO test VALUES ('User', 23), ('User2', 27);
            UPDATE test SET age = age * 2",
        )
        .unwrap();
    let result = db.execute_query("SELECT * FROM test").unwrap();
    assert_eq!(result.len(), 1);
    assert_equals(&result[0], set(vec![
        vec!["User".into(), 46.into()],
        vec!["User2".into(), 54.into()],
    ]), vec!["name", "age"])
}
fn run(db: &TestDatabase, text: &str) -> Relation {
    db.execute_query(text).unwrap().pop().unwrap()
}

fn whole(i: i64) -> Value {
    Value::from(i)
}

fn text(s: &str) -> Value {
    Value::from(s)
}

#[test]
fn scenario_basic_insert_select() {
    let db = temp_db();
    let result = db
        .execute_query(
            "CREATE TABLE t (name string, age int); INSERT INTO t VALUES ('User',25); SELECT * FROM t;",
        )
        .unwrap();
    assert_eq!(result.len(), 3);
    assert!(result[0].is_empty());
    assert!(result[1].is_empty());
    assert_equals_ordered(
        &result[2],
        vec![vec![text("User"), whole(25)]],
        vec!["name", "age"],
    );
}

#[test]
fn scenario_null_propagation() {
    let db = temp_db();
    let result = run(
        &db,
        "CREATE TABLE t(a int); INSERT INTO t VALUES (NULL),(5); SELECT * FROM t WHERE a=5;",
    );
    assert_equals_ordered(&result, vec![vec![whole(5)]], vec!["a"]);
    let all = run(&db, "SELECT * FROM t;");
    assert_equals_ordered(&all, vec![vec![Value::Null], vec![whole(5)]], vec!["a"]);
}

#[test]
fn scenario_primary_key_rejection() {
    let db = temp_db();
    db.execute_query("CREATE TABLE t(n string PRIMARY KEY); INSERT INTO t VALUES ('a');")
        .unwrap();
    let second = db.execute_query("INSERT INTO t VALUES ('a');");
    assert!(matches!(
        second,
        Err(Error::Execution(ExecutionError::UniqueConstraintFailed(_)))
    ));
    let result = run(&db, "SELECT * FROM t");
    assert_equals_ordered(&result, vec![vec![text("a")]], vec!["n"]);
}

#[test]
fn scenario_foreign_key_cascade_delete() {
    let db = temp_db();
    let result = run(
        &db,
        "CREATE TABLE p(n string PRIMARY KEY); INSERT INTO p VALUES('x'); CREATE TABLE c(n string, FOREIGN KEY(n) REFERENCES p(n) ON DELETE CASCADE); INSERT INTO c VALUES('x'); DELETE FROM p WHERE n='x'; SELECT * FROM c;",
    );
    assert_equals_ordered(&result, vec![], vec!["n"]);
    let parents = run(&db, "SELECT * FROM p;");
    assert_equals_ordered(&parents, vec![], vec!["n"]);
}

#[test]
fn scenario_natural_join() {
    let db = temp_db();
    let result = run(
        &db,
        "CREATE TABLE people (name string, age int);
         CREATE TABLE hobbies (name string, hobby string);
         INSERT INTO people VALUES ('Josh', 23), ('Hugh', 43);
         INSERT INTO hobbies VALUES ('Josh', 'Music'), ('Hugh', 'Swim');
         SELECT * FROM people NATURAL JOIN hobbies;",
    );
    assert_equals_ordered(
        &result,
        vec![
            vec![text("Josh"), whole(23), text("Music")],
            vec![text("Hugh"), whole(43), text("Swim")],
        ],
        vec!["name", "age", "hobby"],
    );
}

#[test]
fn scenario_update_doubles_every_row() {
    let db = temp_db();
    let result = run(
        &db,
        "CREATE TABLE t(n string, a int); INSERT INTO t VALUES('A',23),('B',27); UPDATE t SET a = a*2; SELECT * FROM t;",
    );
    assert_equals_ordered(
        &result,
        vec![vec![text("A"), whole(46)], vec![text("B"), whole(54)]],
        vec!["n", "a"],
    );
}

#[test]
fn rejected_insert_not_null_keeps_rows() {
    let db = temp_db();
    db.execute_query("CREATE TABLE t (a int NOT NULL, b int); INSERT INTO t VALUES (1, 1);")
        .unwrap();
    let rejected = db.execute_query("INSERT INTO t VALUES (2, 2), (NULL, 3);");
    assert!(
        matches!(rejected, Err(Error::Execution(ExecutionError::NullConstraintFailed(name))) if name == "a")
    );
    assert_equals_ordered(&run(&db, "SELECT * FROM t;"), vec![vec![whole(1), whole(1)]], vec!["a", "b"]);
}

#[test]
fn rejected_insert_unique_keeps_rows() {
    let db = temp_db();
    db.execute_query("CREATE TABLE t (a int UNIQUE); INSERT INTO t VALUES (1);")
        .unwrap();
    let rejected = db.execute_query("INSERT INTO t VALUES (2), (1);");
    assert!(matches!(
        rejected,
        Err(Error::Execution(ExecutionError::UniqueConstraintFailed(_)))
    ));
    assert_equals_ordered(&run(&db, "SELECT * FROM t;"), vec![vec![whole(1)]], vec!["a"]);
    let twice = db.execute_query("INSERT INTO t VALUES (3), (3);");
    assert!(matches!(
        twice,
        Err(Error::Execution(ExecutionError::UniqueConstraintFailed(_)))
    ));
    assert_equals_ordered(&run(&db, "SELECT * FROM t;"), vec![vec![whole(1)]], vec!["a"]);
}

#[test]
fn rejected_insert_primary_key_keeps_rows() {
    let db = temp_db();
    db.execute_query("CREATE TABLE t (a int, b int, PRIMARY KEY (a, b)); INSERT INTO t VALUES (1, 2);")
        .unwrap();
    let rejected = db.execute_query("INSERT INTO t VALUES (1, 3), (1, 2);");
    assert!(matches!(
        rejected,
        Err(Error::Execution(ExecutionError::UniqueConstraintFailed(_)))
    ));
    let null = db.execute_query("INSERT INTO t VALUES (5, 5), (1, NULL);");
    assert!(matches!(
        null,
        Err(Error::Execution(ExecutionError::NullConstraintFailed(_)))
    ));
    assert_equals_ordered(&run(&db, "SELECT * FROM t;"), vec![vec![whole(1), whole(2)]], vec!["a", "b"]);
}

#[test]
fn rejected_insert_check_keeps_rows() {
    let db = temp_db();
    db.execute_query("CREATE TABLE t (a int CHECK (a > 0)); INSERT INTO t VALUES (1);")
        .unwrap();
    let rejected = db.execute_query("INSERT INTO t VALUES (2), (0);");
    assert!(matches!(
        rejected,
        Err(Error::Execution(ExecutionError::CheckConstraintFailed(_)))
    ));
    assert_equals_ordered(&run(&db, "SELECT * FROM t;"), vec![vec![whole(1)]], vec!["a"]);
}

#[test]
fn cascade_delete_leaves_no_referring_row() {
    let db = temp_db();
    db.execute_query(
        "CREATE TABLE p(n string PRIMARY KEY);
         INSERT INTO p VALUES ('x'), ('y');
         CREATE TABLE c(n string, v int, FOREIGN KEY(n) REFERENCES p(n) ON DELETE CASCADE);
         INSERT INTO c VALUES ('x', 1), ('y', 2), ('x', 3), (NULL, 4);
         DELETE FROM p WHERE n = 'x';",
    )
    .unwrap();
    assert_equals_ordered(&run(&db, "SELECT * FROM c WHERE n = 'x';"), vec![], vec!["n", "v"]);
    assert_equals_ordered(
        &run(&db, "SELECT * FROM c;"),
        vec![vec![text("y"), whole(2)], vec![Value::Null, whole(4)]],
        vec!["n", "v"],
    );
    assert_equals_ordered(&run(&db, "SELECT * FROM p;"), vec![vec![text("y")]], vec!["n"]);
}

#[test]
fn cascade_delete_runs_through_two_levels() {
    let db = temp_db();
    db.execute_query(
        "CREATE TABLE a(n int PRIMARY KEY);
         CREATE TABLE b(n int PRIMARY KEY, FOREIGN KEY(n) REFERENCES a(n) ON DELETE CASCADE);
         CREATE TABLE c(n int, FOREIGN KEY(n) REFERENCES b(n) ON DELETE CASCADE);
         INSERT INTO a VALUES (1), (2);
         INSERT INTO b VALUES (1), (2);
         INSERT INTO c VALUES (1), (2), (1);
         DELETE FROM a WHERE n = 1;",
    )
    .unwrap();
    assert_equals_ordered(&run(&db, "SELECT * FROM b;"), vec![vec![whole(2)]], vec!["n"]);
    assert_equals_ordered(&run(&db, "SELECT * FROM c;"), vec![vec![whole(2)]], vec!["n"]);
}

#[test]
fn set_null_delete_sets_key_columns_to_null() {
    let db = temp_db();
    db.execute_query(
        "CREATE TABLE p(n string PRIMARY KEY);
         INSERT INTO p VALUES ('x'), ('y');
         CREATE TABLE c(n string, v int, FOREIGN KEY(n) REFERENCES p(n) ON DELETE SET NULL);
         INSERT INTO c VALUES ('x', 1), ('y', 2);
         DELETE FROM p WHERE n = 'x';",
    )
    .unwrap();
    assert_equals_ordered(
        &run(&db, "SELECT * FROM c;"),
        vec![vec![Value::Null, whole(1)], vec![text("y"), whole(2)]],
        vec!["n", "v"],
    );
}

#[test]
fn set_null_delete_against_not_null_changes_nothing() {
    let db = temp_db();
    db.execute_query(
        "CREATE TABLE p(n string PRIMARY KEY);
         INSERT INTO p VALUES ('x'), ('y');
         CREATE TABLE free(n string, FOREIGN KEY(n) REFERENCES p(n) ON DELETE SET NULL);
         CREATE TABLE bound(n string NOT NULL, FOREIGN KEY(n) REFERENCES p(n) ON DELETE SET NULL);
         INSERT INTO free VALUES ('x');
         INSERT INTO bound VALUES ('x');",
    )
    .unwrap();
    let rejected = db.execute_query("DELETE FROM p WHERE n = 'x';");
    assert!(matches!(
        rejected,
        Err(Error::Execution(ExecutionError::NullConstraintFailed(_)))
    ));
    assert_equals_ordered(
        &run(&db, "SELECT * FROM p;"),
        vec![vec![text("x")], vec![text("y")]],
        vec!["n"],
    );
    assert_equals_ordered(&run(&db, "SELECT * FROM free;"), vec![vec![text("x")]], vec!["n"]);
    assert_equals_ordered(&run(&db, "SELECT * FROM bound;"), vec![vec![text("x")]], vec!["n"]);
}

#[test]
fn inner_join_is_the_filtered_product() {
    let db = temp_db();
    db.execute_query(
        "CREATE TABLE a(x int); CREATE TABLE b(y int);
         INSERT INTO a VALUES (1), (2), (3);
         INSERT INTO b VALUES (2), (3);",
    )
    .unwrap();
    let joined = run(&db, "SELECT * FROM a INNER JOIN b ON a.x < b.y;");
    assert_equals_ordered(
        &joined,
        vec![
            vec![whole(1), whole(2)],
            vec![whole(1), whole(3)],
            vec![whole(2), whole(3)],
        ],
        vec!["x", "y"],
    );
    let filtered = run(&db, "SELECT * FROM a, b WHERE a.x < b.y;");
    assert_eq!(joined.rows(), filtered.rows());
    let product = run(&db, "SELECT * FROM a, b;");
    assert_eq!(product.rows().len(), 6);
}

#[test]
fn left_join_shows_every_left_row() {
    let db = temp_db();
    db.execute_query(
        "CREATE TABLE a(x int); CREATE TABLE b(y int);
         INSERT INTO a VALUES (1), (2), (3);
         INSERT INTO b VALUES (2), (2);",
    )
    .unwrap();
    let joined = run(&db, "SELECT * FROM a LEFT JOIN b ON a.x = b.y;");
    assert_equals_ordered(
        &joined,
        vec![
            vec![whole(1), Value::Null],
            vec![whole(2), whole(2)],
            vec![whole(2), whole(2)],
            vec![whole(3), Value::Null],
        ],
        vec!["x", "y"],
    );
    let empty = run(&db, "CREATE TABLE none(z int); SELECT * FROM a LEFT JOIN none ON a.x = none.z;");
    assert_equals_ordered(
        &empty,
        vec![
            vec![whole(1), Value::Null],
            vec![whole(2), Value::Null],
            vec![whole(3), Value::Null],
        ],
        vec!["x", "z"],
    );
}

#[test]
fn right_join_shows_every_right_row() {
    let db = temp_db();
    db.execute_query(
        "CREATE TABLE a(x int); CREATE TABLE b(y int);
         INSERT INTO a VALUES (2);
         INSERT INTO b VALUES (1), (2);",
    )
    .unwrap();
    let joined = run(&db, "SELECT * FROM a RIGHT JOIN b ON a.x = b.y;");
    assert_equals_ordered(
        &joined,
        vec![vec![Value::Null, whole(1)], vec![whole(2), whole(2)]],
        vec!["x", "y"],
    );
}

#[test]
fn natural_join_agrees_on_every_shared_column() {
    let db = temp_db();
    db.execute_query(
        "CREATE TABLE people (name string, city string, age int);
         CREATE TABLE clubs (city string, name string, club string);
         INSERT INTO people VALUES ('Josh', 'York', 23), ('Hugh', 'Bath', 43), ('Josh', 'Bath', 30);
         INSERT INTO clubs VALUES ('York', 'Josh', 'Chess'), ('York', 'Hugh', 'Golf'), ('Bath', 'Josh', 'Darts');",
    )
    .unwrap();
    let joined = run(&db, "SELECT * FROM people NATURAL JOIN clubs;");
    assert_equals_ordered(
        &joined,
        vec![
            vec![text("Josh"), text("York"), whole(23), text("Chess")],
            vec![text("Josh"), text("Bath"), whole(30), text("Darts")],
        ],
        vec!["name", "city", "age", "club"],
    );
}

#[test]
fn using_join_pairs_the_named_column() {
    let db = temp_db();
    db.execute_query(
        "CREATE TABLE people (name string, age int);
         CREATE TABLE hobbies (name string, age int);
         INSERT INTO people VALUES ('Josh', 23), ('Hugh', 43);
         INSERT INTO hobbies VALUES ('Josh', 1), ('Hugh', 2);",
    )
    .unwrap();
    let joined = run(&db, "SELECT * FROM people JOIN hobbies USING (name);");
    assert_eq!(joined.rows().len(), 2);
    assert_eq!(joined.rows()[0][0], text("Josh"));
    assert_eq!(joined.rows()[1][0], text("Hugh"));
    let missing = db.execute_query("SELECT * FROM people JOIN hobbies USING (hobby);");
    assert!(
        matches!(missing, Err(Error::Execution(ExecutionError::NoColumn(name))) if name == "hobby")
    );
}

#[test]
fn order_by_sorts_stably_with_nulls_last() {
    let db = temp_db();
    db.execute_query(
        "CREATE TABLE t(a int, b string);
         INSERT INTO t VALUES (2, 'b'), (NULL, 'n'), (1, 'a'), (2, 'a');",
    )
    .unwrap();
    assert_equals_ordered(
        &run(&db, "SELECT * FROM t ORDER BY a;"),
        vec![
            vec![whole(1), text("a")],
            vec![whole(2), text("b")],
            vec![whole(2), text("a")],
            vec![Value::Null, text("n")],
        ],
        vec!["a", "b"],
    );
    assert_equals_ordered(
        &run(&db, "SELECT * FROM t ORDER BY a NULLS FIRST;"),
        vec![
            vec![Value::Null, text("n")],
            vec![whole(1), text("a")],
            vec![whole(2), text("b")],
            vec![whole(2), text("a")],
        ],
        vec!["a", "b"],
    );
    assert_equals_ordered(
        &run(&db, "SELECT * FROM t WHERE a > 0 ORDER BY a DESC, b;"),
        vec![
            vec![whole(2), text("a")],
            vec![whole(2), text("b")],
            vec![whole(1), text("a")],
        ],
        vec!["a", "b"],
    );
}

#[test]
fn arithmetic_wraps_and_division_by_zero_is_null() {
    let db = temp_db();
    let result = run(
        &db,
        "SELECT 7 / 2, 7 % 4, 7 / 0, 7 % 0, 9223372036854775807 + 1, 3 * 4 - 2, NULL + 1, '12abc' + 1;",
    );
    assert_eq!(
        result.rows(),
        &vec![vec![
            whole(3),
            whole(3),
            Value::Null,
            Value::Null,
            whole(i64::MIN),
            whole(10),
            Value::Null,
            whole(13),
        ]]
    );
}

#[test]
fn logic_has_three_values() {
    let db = temp_db();
    let result = run(
        &db,
        "SELECT NULL AND 0, NULL AND 1, NULL OR 1, NULL OR 0, 1 AND 1, 0 OR 0, NULL = NULL, 5 = '5', 'HELLO' < 5, 'a' < 'b';",
    );
    assert_eq!(
        result.rows(),
        &vec![vec![
            whole(0),
            Value::Null,
            whole(1),
            Value::Null,
            whole(1),
            whole(0),
            Value::Null,
            whole(1),
            whole(1),
            whole(1),
        ]]
    );
}

#[test]
fn create_table_if_not_exists_keeps_the_table() {
    let db = temp_db();
    db.execute_query("CREATE TABLE t (a int); INSERT INTO t VALUES (1);")
        .unwrap();
    let again = run(&db, "CREATE TABLE IF NOT EXISTS t (b string);");
    assert!(again.is_empty());
    assert_equals_ordered(&run(&db, "SELECT * FROM t;"), vec![vec![whole(1)]], vec!["a"]);
}

#[test]
fn select_without_tables_has_no_wildcard() {
    let db = temp_db();
    let result = db.execute_query("SELECT *;");
    assert!(matches!(
        result,
        Err(Error::Execution(ExecutionError::NoTables))
    ));
}

#[test]
fn a_table_cannot_be_named_twice() {
    let db = temp_db();
    db.execute_query("CREATE TABLE a(x int);").unwrap();
    let result = db.execute_query("SELECT * FROM a, a;");
    assert!(
        matches!(result, Err(Error::Execution(ExecutionError::DuplicateTableName(name))) if name == "a")
    );
    let aliased = run(&db, "INSERT INTO a VALUES (1), (2); SELECT * FROM a, a AS b;");
    assert_eq!(aliased.rows().len(), 4);
}

#[test]
fn outer_join_needs_a_constraint() {
    let db = temp_db();
    db.execute_query("CREATE TABLE a(x int); CREATE TABLE b(y int);")
        .unwrap();
    let table = |name: &str| qp::TableFactor::Table {
        name: name.to_string(),
        alias: None,
    };
    let statement = qp::Statement::Query(qp::Query {
        body: qp::SetExpr::Select(qp::Select {
            projection: vec![qp::SelectItem::Wildcard],
            from: vec![qp::TableWithJoins {
                relation: table("a"),
                joins: vec![qp::Join {
                    relation: table("b"),
                    join_operator: qp::JoinOperator::LeftOuter(qp::JoinConstraint::Unconstrained),
                }],
            }],
            selection: None,
        }),
        order_by: vec![],
    });
    let query = process_query(statement).unwrap();
    let result = db.interpreter.borrow_mut().execute(query);
    assert!(matches!(
        result,
        Err(Error::Execution(ExecutionError::NoConstraintOnJoin))
    ));
}

#[test]
fn a_referred_table_cannot_be_dropped() {
    let db = temp_db();
    db.execute_query(
        "CREATE TABLE p(n string PRIMARY KEY);
         CREATE TABLE c(n string, CONSTRAINT link FOREIGN KEY(n) REFERENCES p(n));",
    )
    .unwrap();
    let result = db.execute_query("DROP TABLE p;");
    assert!(
        matches!(result, Err(Error::Execution(ExecutionError::ForeignKeyDependencyDelete { parent_table, key_name })) if parent_table == "c" && key_name == "link")
    );
    db.execute_query("SELECT * FROM p;").unwrap();
    db.execute_query("DROP TABLE c; DROP TABLE p;").unwrap();
    assert!(
        matches!(db.execute_query("SELECT * FROM p;"), Err(Error::Execution(ExecutionError::NoTable(name))) if name == "p")
    );
}

#[test]
fn create_table_rejects_what_is_said_twice() {
    let db = temp_db();
    assert!(
        matches!(db.execute_query("CREATE TABLE t (a int PRIMARY KEY, b int PRIMARY KEY);"), Err(Error::Execution(ExecutionError::MultiplePrimaryKey(name))) if name == "t")
    );
    assert!(
        matches!(db.execute_query("CREATE TABLE t (a int DEFAULT 1 DEFAULT 2);"), Err(Error::Execution(ExecutionError::MultipleDefault(name))) if name == "a")
    );
    assert!(
        matches!(db.execute_query("CREATE TABLE t (a int NOT NULL NOT NULL);"), Err(Error::Execution(ExecutionError::MultipleNotNull(name))) if name == "a")
    );
    assert!(
        matches!(db.execute_query("CREATE TABLE t (a int UNIQUE UNIQUE);"), Err(Error::Execution(ExecutionError::MultipleUnique(name))) if name == "a")
    );
    assert!(
        matches!(db.execute_query("CREATE TABLE t (a int, UNIQUE (b));"), Err(Error::Execution(ExecutionError::NoColumn(name))) if name == "b")
    );
    assert!(
        matches!(db.execute_query("SELECT * FROM t;"), Err(Error::Execution(ExecutionError::NoTable(name))) if name == "t")
    );
}

#[test]
fn foreign_key_counts_its_columns() {
    let db = temp_db();
    db.execute_query("CREATE TABLE p (a int, b int, UNIQUE (a, b));")
        .unwrap();
    let result =
        db.execute_query("CREATE TABLE c (x int, y int, FOREIGN KEY (x, y) REFERENCES p(a));");
    assert!(matches!(
        result,
        Err(Error::Execution(
            ExecutionError::IncorrectNumForeignKeyReferredColumns {
                expected: 2,
                found: 1
            }
        ))
    ));
}

#[test]
fn foreign_key_columns_pair_in_the_order_written() {
    let db = temp_db();
    db.execute_query(
        "CREATE TABLE p (a int, b int, UNIQUE (a, b));
         INSERT INTO p VALUES (1, 2);
         CREATE TABLE c (x int, y int, CONSTRAINT link FOREIGN KEY (y, x) REFERENCES p(b, a));
         INSERT INTO c VALUES (1, 2);",
    )
    .unwrap();
    let swapped = db.execute_query("INSERT INTO c VALUES (2, 1);");
    assert!(
        matches!(swapped, Err(Error::Execution(ExecutionError::ForeignKeyConstraintFailed(name))) if name == "link")
    );
    db.execute_query("INSERT INTO c VALUES (NULL, 7);").unwrap();
    assert_eq!(run(&db, "SELECT * FROM c;").rows().len(), 2);
}

#[test]
fn foreign_key_needs_a_unique_set_among_its_columns() {
    let db = temp_db();
    db.execute_query("CREATE TABLE p (a int, b int, c int, UNIQUE (b, a));")
        .unwrap();
    db.execute_query(
        "CREATE TABLE wide (x int, y int, z int, FOREIGN KEY (x, y, z) REFERENCES p(c, b, a));",
    )
    .unwrap();
    let narrow =
        db.execute_query("CREATE TABLE narrow (x int, CONSTRAINT link FOREIGN KEY (x) REFERENCES p(a));");
    assert!(
        matches!(narrow, Err(Error::Execution(ExecutionError::ForeignKeyNotUnique(name))) if name == "link")
    );
}

#[test]
fn update_cascade_checks_the_referring_row_again() {
    let db = temp_db();
    db.execute_query(
        "CREATE TABLE p(n int PRIMARY KEY, v int);
         INSERT INTO p VALUES (1, 0), (2, 0);
         CREATE TABLE c(n int, CONSTRAINT link FOREIGN KEY(n) REFERENCES p(n) ON UPDATE CASCADE);
         INSERT INTO c VALUES (1), (2), (1);",
    )
    .unwrap();
    db.execute_query("UPDATE p SET v = 5 WHERE n = 1;").unwrap();
    assert_equals_ordered(
        &run(&db, "SELECT * FROM p;"),
        vec![vec![whole(1), whole(5)], vec![whole(2), whole(0)]],
        vec!["n", "v"],
    );
    let moved = db.execute_query("UPDATE p SET n = 10 WHERE n = 1;");
    assert!(
        matches!(moved, Err(Error::Execution(ExecutionError::ForeignKeyConstraintFailed(name))) if name == "link")
    );
    assert_equals_ordered(
        &run(&db, "SELECT * FROM p;"),
        vec![vec![whole(1), whole(5)], vec![whole(2), whole(0)]],
        vec!["n", "v"],
    );
    assert_equals_ordered(
        &run(&db, "SELECT * FROM c;"),
        vec![vec![whole(1)], vec![whole(2)], vec![whole(1)]],
        vec!["n"],
    );
}

#[test]
fn rejected_update_changes_nothing() {
    let db = temp_db();
    db.execute_query("CREATE TABLE t (a int UNIQUE, b int); INSERT INTO t VALUES (1, 1), (2, 2), (3, 3);")
        .unwrap();
    let rejected = db.execute_query("UPDATE t SET a = a + 1, b = 0 WHERE a < 3;");
    assert!(matches!(
        rejected,
        Err(Error::Execution(ExecutionError::UniqueConstraintFailed(_)))
    ));
    assert_equals_ordered(
        &run(&db, "SELECT * FROM t;"),
        vec![
            vec![whole(1), whole(1)],
            vec![whole(2), whole(2)],
            vec![whole(3), whole(3)],
        ],
        vec!["a", "b"],
    );
}

#[test]
fn a_number_that_does_not_fit_is_an_error() {
    let db = temp_db();
    let result = db.execute_query("SELECT 9223372036854775808;");
    assert!(matches!(result, Err(Error::Internal(_))));
    let fits = run(&db, "SELECT 9223372036854775807;");
    assert_eq!(fits.rows(), &vec![vec![whole(i64::MAX)]]);
}

#[test]
fn a_relation_is_shown_line_by_line() {
    let db = temp_db();
    let result = run(
        &db,
        "CREATE TABLE t (name string, age int); INSERT INTO t VALUES ('User', 25), (NULL, 0 - 3); SELECT * FROM t;",
    );
    assert_eq!(result.to_string(), "name|age\nUser|25\nNULL|-3\n");
    assert_eq!(run(&db, "INSERT INTO t VALUES ('x', 1);").to_string(), "");
    assert_eq!(
        run(&db, "SELECT age FROM t WHERE age > 100;").to_string(),
        "age\n"
    );
}

fn copy_definition(definition: &TableDefinition) -> TableDefinition {
    let mut columns = Columns::new();
    let mut defaults = HashMap::new();
    for (index, name) in definition.columns().column_names().into_iter().enumerate() {
        let t = definition.get_data_type(name.as_str()).unwrap();
        columns.add_column(name, t).unwrap();
        let default = definition.get_default(index);
        if !default.is_null() {
            defaults.insert(index, default);
        }
    }
    TableDefinition::new(
        columns,
        definition.not_nulls().clone(),
        definition.uniques().clone(),
        definition.primary_key().cloned(),
        definition
            .checks()
            .iter()
            .map(|(check, name)| (check.duplicate(), name.clone()))
            .collect(),
        defaults,
    )
}

fn pairs(tree: &Tree) -> Vec<(Vec<u8>, Vec<u8>)> {
    tree.rows()
        .iter()
        .rev()
        .map(|row| (row.key().clone(), row.data().clone()))
        .collect()
}

#[test]
fn a_database_is_restored_from_its_rows() {
    let db = temp_db();
    db.execute_query(
        "CREATE TABLE p(n string PRIMARY KEY);
         CREATE TABLE c(n string, v int DEFAULT 7, CHECK (v > 0), FOREIGN KEY(n) REFERENCES p(n) ON DELETE CASCADE);
         INSERT INTO p VALUES ('x'), ('y');
         INSERT INTO c (n) VALUES ('x'), ('y');",
    )
    .unwrap();
    let copy = temp_db();
    {
        let source = db.interpreter.borrow();
        let catalog = source.catalog();
        let mut target = copy.interpreter.borrow_mut();
        for index in 0..catalog.len() {
            target
                .restore_table(
                    catalog.name(index).to_string(),
                    copy_definition(catalog.definition(index)),
                    pairs(source.tree(index)),
                )
                .unwrap();
        }
        target.restore_foreign_keys(pairs(catalog.foreign_key_tree()));
        assert_eq!(target.num_tables(), 2);
        let again = target.restore_table(
            "p".to_string(),
            copy_definition(catalog.definition(0)),
            vec![],
        );
        assert!(
            matches!(again, Err(Error::Execution(ExecutionError::TableExists(name))) if name == "p")
        );
        assert_eq!(target.num_tables(), 2);
    }
    assert_equals_ordered(
        &run(&copy, "SELECT * FROM c;"),
        vec![vec![text("x"), whole(7)], vec![text("y"), whole(7)]],
        vec!["n", "v"],
    );
    let unknown = copy.execute_query("INSERT INTO c VALUES ('z', 1);");
    assert!(matches!(
        unknown,
        Err(Error::Execution(ExecutionError::ForeignKeyConstraintFailed(_)))
    ));
    let negative = copy.execute_query("INSERT INTO c VALUES ('y', 0);");
    assert!(matches!(
        negative,
        Err(Error::Execution(ExecutionError::CheckConstraintFailed(_)))
    ));
    assert_equals_ordered(
        &run(&copy, "INSERT INTO c (n) VALUES ('y'); DELETE FROM p WHERE n = 'x'; SELECT * FROM c;"),
        vec![vec![text("y"), whole(7)], vec![text("y"), whole(7)]],
        vec!["n", "v"],
    );
    assert_equals_ordered(
        &run(&db, "SELECT * FROM c;"),
        vec![vec![text("x"), whole(7)], vec![text("y"), whole(7)]],
        vec!["n", "v"],
    );
}
