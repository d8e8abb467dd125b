use stardust_db::data_types::{Type, Value};
use stardust_db::error::{Error, ExecutionError};
use stardust_db::storage::{Columns, MAX_ROW_LEN};

fn schema(columns: &[(&str, Type)]) -> Columns {
    let mut schema = Columns::new();
    for (name, t) in columns {
        schema.add_column(name.to_string(), *t).unwrap();
    }
    schema
}

fn read_all(schema: &Columns, row: &[u8]) -> Vec<Value> {
    (0..schema.num_columns())
        .map(|i| schema.get_data(i, row).unwrap())
        .collect()
}

#[test]
fn rows_are_read_back_as_written() {
    let schema = schema(&[
        ("a", Type::Integer),
        ("b", Type::String),
        ("c", Type::String),
        ("d", Type::Integer),
        ("e", Type::String),
    ]);
    let rows = vec![
        vec![
            Value::from(1),
            Value::from("one"),
            Value::from(""),
            Value::from(-1),
            Value::from("größer"),
        ],
        vec![Value::Null, Value::Null, Value::Null, Value::Null, Value::Null],
        vec![
            Value::from(i64::MIN),
            Value::Null,
            Value::from("x".repeat(65000)),
            Value::Null,
            Value::from(""),
        ],
    ];
    for values in rows {
        let row = schema.generate_row(values.clone()).unwrap();
        assert!(row.len() <= MAX_ROW_LEN);
        assert_eq!(read_all(&schema, &row), values);
        for (i, name) in ["a", "b", "c", "d", "e"].iter().enumerate() {
            assert_eq!(schema.get_data(*name, &row).unwrap(), values[i]);
        }
    }
}

#[test]
fn values_are_cast_to_the_type_of_their_column() {
    let schema = schema(&[("a", Type::Integer), ("b", Type::String)]);
    let row = schema
        .generate_row(vec![Value::from("12 apples"), Value::from(34)])
        .unwrap();
    assert_eq!(read_all(&schema, &row), vec![Value::from(12), Value::from("34")]);
}

#[test]
fn a_row_has_one_value_for_each_column() {
    let schema = schema(&[("a", Type::Integer), ("b", Type::String)]);
    assert!(matches!(
        schema.generate_row(vec![Value::from(1)]),
        Err(Error::Execution(ExecutionError::WrongNumColumns {
            expected: 2,
            actual: 1
        }))
    ));
    assert!(matches!(
        schema.generate_row(vec![Value::from(1), Value::Null, Value::Null]),
        Err(Error::Execution(ExecutionError::WrongNumColumns {
            expected: 2,
            actual: 3
        }))
    ));
}

#[test]
fn a_row_is_at_most_65535_bytes_long() {
    let schema = schema(&[("a", Type::String), ("b", Type::String)]);
    let fits = schema
        .generate_row(vec![Value::from("x".repeat(65531)), Value::Null])
        .unwrap();
    assert_eq!(fits.len(), 65535);
    assert_eq!(
        read_all(&schema, &fits),
        vec![Value::from("x".repeat(65531)), Value::Null]
    );
    assert!(matches!(
        schema.generate_row(vec![Value::from("x".repeat(65532)), Value::Null]),
        Err(Error::Internal(_))
    ));
    assert!(matches!(
        schema.generate_row(vec![
            Value::from("x".repeat(40000)),
            Value::from("y".repeat(40000))
        ]),
        Err(Error::Internal(_))
    ));
}

#[test]
fn a_row_is_laid_out_in_four_parts() {
    let schema = schema(&[
        ("s", Type::String),
        ("i", Type::Integer),
        ("t", Type::String),
        ("j", Type::Integer),
    ]);
    let row = schema
        .generate_row(vec![
            Value::from("ab"),
            Value::Null,
            Value::from("c"),
            Value::from(258),
        ])
        .unwrap();
    assert_eq!(
        row,
        vec![
            0, 0, 0, 0, 0, 0, 0, 0, 0, 0, 0, 0, 0, 0, 1, 2, 0, 21, 0, 23, 2, 97, 98, 99
        ]
    );
    let nulls = schema
        .generate_row(vec![Value::Null, Value::from(1), Value::Null, Value::Null])
        .unwrap();
    assert_eq!(
        nulls,
        vec![0, 0, 0, 0, 0, 0, 0, 1, 0, 0, 0, 0, 0, 0, 0, 0, 0, 0, 0, 0, 1]
    );
    let middle = schema
        .generate_row(vec![Value::Null, Value::Null, Value::from(""), Value::Null])
        .unwrap();
    assert_eq!(
        read_all(&schema, &middle),
        vec![Value::Null, Value::Null, Value::from(""), Value::Null]
    );
}

#[test]
fn a_schema_knows_its_columns() {
    let mut schema = schema(&[("a", Type::Integer), ("b", Type::String)]);
    assert_eq!(schema.num_columns(), 2);
    assert!(schema.contains_column("a"));
    assert!(!schema.contains_column("A"));
    assert_eq!(schema.get_index("b"), Some(1));
    assert_eq!(schema.get_index("c"), None);
    assert_eq!(schema.get_data_type("a"), Some(Type::Integer));
    assert_eq!(schema.get_data_type("b"), Some(Type::String));
    assert_eq!(schema.get_data_type("c"), None);
    assert_eq!(schema.column_name(1).unwrap(), "b");
    assert!(matches!(schema.column_name(2), Err(Error::Internal(_))));
    assert_eq!(schema.column_names(), vec!["a".to_string(), "b".to_string()]);
    assert!(
        matches!(schema.add_column("a".to_string(), Type::String), Err(Error::Execution(ExecutionError::ColumnExists(name))) if name == "a")
    );
    assert_eq!(schema.num_columns(), 2);
    assert_eq!(schema.get_data_type("a"), Some(Type::Integer));
    assert_eq!(schema.add_column("c".to_string(), Type::Integer).unwrap(), 2);
    assert_eq!(schema.get_index("c"), Some(2));
    assert_eq!(Columns::with_capacity(8).num_columns(), 0);
    assert_eq!(Columns::default().num_columns(), 0);
}

#[test]
fn reading_fails_on_what_is_no_row() {
    let schema = schema(&[("a", Type::Integer), ("b", Type::String)]);
    let row = schema
        .generate_row(vec![Value::from(1), Value::from("b")])
        .unwrap();
    assert!(
        matches!(schema.get_data("zz", &row), Err(Error::Execution(ExecutionError::NoColumn(name))) if name == "zz")
    );
    assert!(schema.get_data(2usize, &row).is_err());
    assert!(matches!(schema.get_data(0usize, &[1, 2, 3]), Err(Error::Internal(_))));
    assert_eq!(
        schema.get_data(1usize, &row[..row.len() - 1]).unwrap(),
        Value::from("")
    );
    assert!(matches!(schema.get_data(1usize, &row[..9]), Err(Error::Internal(_))));
    let mut broken = row.clone();
    let last = broken.len() - 1;
    broken[last] = 255;
    assert!(matches!(schema.get_data("b", &broken), Err(Error::Internal(_))));
}
