use stardust_db::ast::{ColumnName, OrderBy, OrderByDirection, UnresolvedExpression};
use stardust_db::data_types::Value;
use stardust_db::error::{Error, ExecutionError};
use stardust_db::relation::Relation;

fn relation(columns: &[&str], rows: Vec<Vec<Value>>) -> Relation {
    let mut relation = Relation::new(columns.iter().map(|c| c.to_string()).collect());
    for row in rows {
        relation.add_row(row).unwrap();
    }
    relation
}

fn key(column: &str, direction: OrderByDirection, nulls_first: bool) -> OrderBy {
    OrderBy::new(
        UnresolvedExpression::Identifier(ColumnName::new(None, column.to_string())),
        direction,
        nulls_first,
    )
}

fn v(i: i64) -> Value {
    Value::from(i)
}

#[test]
fn rows_have_one_value_for_each_column() {
    let mut relation = relation(&["a", "b"], vec![vec![v(1), v(2)]]);
    assert!(matches!(
        relation.add_row(vec![v(1)]),
        Err(Error::Execution(ExecutionError::WrongNumColumns {
            expected: 2,
            actual: 1
        }))
    ));
    assert_eq!(relation.num_rows(), 1);
    assert_eq!(relation.num_columns(), 2);
    assert!(!relation.is_empty());
    assert!(Relation::default().is_empty());
    assert!(!Relation::new(vec!["a".to_string()]).is_empty());
    assert!(relation.contains_column("b"));
    assert!(!relation.contains_column("c"));
    assert_eq!(relation.get_value(1, 0), Some(&v(2)));
    assert_eq!(relation.get_value(2, 0), None);
    assert_eq!(relation.get_value(0, 1), None);
    assert_eq!(relation.get_value_named("a", 0), Some(&v(1)));
    assert_eq!(relation.get_value_named("c", 0), None);
    assert_eq!(relation.get_value_named("a", 5), None);
    let rows = relation.iter();
    assert_eq!(rows.len(), 1);
    assert_eq!(rows[0].get_value_index(1), Some(&v(2)));
    assert_eq!(rows[0].get_value_index(2), None);
    assert_eq!(rows[0].get_value_named("b"), Some(&v(2)));
    assert_eq!(rows[0].get_value_named("z"), None);
    assert_eq!(relation.take_rows(), vec![vec![v(1), v(2)]]);
}

#[test]
fn sorting_is_stable_and_puts_nulls_last() {
    let rows = vec![
        vec![v(2), v(0)],
        vec![Value::Null, v(1)],
        vec![v(1), v(2)],
        vec![v(2), v(3)],
        vec![Value::Null, v(4)],
        vec![v(1), v(5)],
    ];
    let mut rising = relation(&["a", "b"], rows.clone());
    rising
        .sort(vec![key("a", OrderByDirection::Ascending, false)])
        .unwrap();
    assert_eq!(
        rising.rows(),
        &vec![
            vec![v(1), v(2)],
            vec![v(1), v(5)],
            vec![v(2), v(0)],
            vec![v(2), v(3)],
            vec![Value::Null, v(1)],
            vec![Value::Null, v(4)],
        ]
    );
    let mut nulls_first = relation(&["a", "b"], rows.clone());
    nulls_first
        .sort(vec![key("a", OrderByDirection::Ascending, true)])
        .unwrap();
    assert_eq!(
        nulls_first.rows(),
        &vec![
            vec![Value::Null, v(1)],
            vec![Value::Null, v(4)],
            vec![v(1), v(2)],
            vec![v(1), v(5)],
            vec![v(2), v(0)],
            vec![v(2), v(3)],
        ]
    );
    let mut two_keys = relation(&["a", "b"], rows.clone());
    two_keys
        .sort(vec![
            key("a", OrderByDirection::Ascending, true),
            key("b", OrderByDirection::Descending, false),
        ])
        .unwrap();
    assert_eq!(
        two_keys.rows(),
        &vec![
            vec![Value::Null, v(4)],
            vec![Value::Null, v(1)],
            vec![v(1), v(5)],
            vec![v(1), v(2)],
            vec![v(2), v(3)],
            vec![v(2), v(0)],
        ]
    );
    let mut unsorted = relation(&["a", "b"], rows.clone());
    unsorted.sort(vec![]).unwrap();
    assert_eq!(unsorted.rows(), &rows);
}

#[test]
fn sorting_needs_a_column_of_the_relation() {
    let mut relation = relation(&["a"], vec![vec![v(2)], vec![v(1)]]);
    let result = relation.sort(vec![key("z", OrderByDirection::Ascending, false)]);
    assert!(
        matches!(result, Err(Error::Execution(ExecutionError::NoColumn(name))) if name == "z")
    );
    assert_eq!(relation.rows(), &vec![vec![v(2)], vec![v(1)]]);
}
