use stardust_db::data_types::{Type, Value};
use stardust_db::storage::Columns;

#[test]
fn single_sized() {
    let mut columns = Columns::new();
    columns.add_column("id".to_string(), Type::Integer).unwrap();
    assert_eq!(
        columns.generate_row(vec![25.into()]).unwrap(),
        vec![0, 0, 0, 0, 0, 0, 0, 25, 1]
    );
    assert_eq!(
        columns
            .get_data("id", &[0, 0, 0, 0, 0, 0, 0, 25, 1])
            .unwrap(),
        25.into()
    );
    assert_eq!(
        columns.get_data(0, &[0, 0, 0, 0, 0, 0, 0, 25, 1]).unwrap(),
        25.into()
    );
    assert_eq!(
        columns.generate_row(vec![Value::Null]).unwrap(),
        vec![0, 0, 0, 0, 0, 0, 0, 0, 0]
    );
    assert_eq!(
        columns
            .get_data("id", &[0, 0, 0, 0, 0, 0, 0, 0, 0])
            .unwrap(),
        Value::Null
    );
    assert_eq!(
        columns.get_data(0, &[0, 0, 0, 0, 0, 0, 0, 0, 0]).unwrap(),
        Value::Null
    );
}

#[test]
fn single_unsized() {
    let mut columns = Columns::new();
    columns
        .add_column("name".to_string(), Type::String)
        .unwrap();
    assert_eq!(
        columns
            .generate_row(vec!["User".into()])
            .unwrap(),
        vec![0, 2, 85, 115, 101, 114]
    );
    assert_eq!(
        columns
            .get_data("name", &[0, 2, 85, 115, 101, 114])
            .unwrap(),
        "User".into()
    );
    assert_eq!(
        columns.get_data(0, &[0, 2, 85, 115, 101, 114]).unwrap(),
        "User".into()
    );
    assert_eq!(
        columns.generate_row(vec![Value::Null]).unwrap(),
        vec![0, 0]
    );
    assert_eq!(columns.get_data("name", &[0, 0]).unwrap(), Value::Null);
    assert_eq!(columns.get_data(0, &[0, 0]).unwrap(), Value::Null);
}

#[test]
fn sized_then_unsized() {
    let mut columns = Columns::new();
    columns.add_column("id".to_string(), Type::Integer).unwrap();
    columns
        .add_column("name".to_string(), Type::String)
        .unwrap();
    assert_eq!(
        columns
            .generate_row(vec![25.into(), "User".into()])
            .unwrap(),
        vec![0, 0, 0, 0, 0, 0, 0, 25, 0, 11, 1, 85, 115, 101, 114]
    );
    assert_eq!(
        columns
            .get_data(
                "id",
                &[0, 0, 0, 0, 0, 0, 0, 25, 0, 11, 1, 85, 115, 101, 114]
            )
            .unwrap(),
        25.into()
    );
    assert_eq!(
        columns
            .get_data(0, &[0, 0, 0, 0, 0, 0, 0, 25, 0, 11, 1, 85, 115, 101, 114])
            .unwrap(),
        25.into()
    );
    assert_eq!(
        columns
            .get_data(
                "name",
                &[0, 0, 0, 0, 0, 0, 0, 25, 0, 11, 1, 85, 115, 101, 114]
            )
            .unwrap(),
        "User".into()
    );
    assert_eq!(
        columns
            .get_data(1, &[0, 0, 0, 0, 0, 0, 0, 25, 0, 11, 1, 85, 115, 101, 114])
            .unwrap(),
        "User".into()
    );

    assert_eq!(
        columns
            .generate_row(vec![25.into(), Value::Null])
            .unwrap(),
        vec![0, 0, 0, 0, 0, 0, 0, 25, 0, 0, 1]
    );
    assert_eq!(
        columns
            .get_data("id", &[0, 0, 0, 0, 0, 0, 0, 25, 0, 0, 1])
            .unwrap(),
        25.into()
    );
    assert_eq!(
        columns
            .get_data(0, &[0, 0, 0, 0, 0, 0, 0, 25, 0, 0, 1])
            .unwrap(),
        25.into()
    );
    assert_eq!(
        columns
            .get_data("name", &[0, 0, 0, 0, 0, 0, 0, 25, 0, 0, 1])
            .unwrap(),
        Value::Null
    );
    assert_eq!(
        columns
            .get_data(1, &[0, 0, 0, 0, 0, 0, 0, 25, 0, 0, 1])
            .unwrap(),
        Value::Null
    );

    assert_eq!(
        columns
            .generate_row(vec![Value::Null, "User".into()])
            .unwrap(),
        vec![0, 0, 0, 0, 0, 0, 0, 0, 0, 11, 0, 85, 115, 101, 114]
    );
    assert_eq!(
        columns
            .get_data("id", &[0, 0, 0, 0, 0, 0, 0, 0, 0, 11, 0, 85, 115, 101, 114])
            .unwrap(),
        Value::Null
    );
    assert_eq!(
        columns
            .get_data(0, &[0, 0, 0, 0, 0, 0, 0, 0, 0, 11, 0, 85, 115, 101, 114])
            .unwrap(),
        Value::Null
    );
    assert_eq!(
        columns
            .get_data(
                "name",
                &[0, 0, 0, 0, 0, 0, 0, 0, 0, 11, 0, 85, 115, 101, 114]
            )
            .unwrap(),
        "User".into()
    );
    assert_eq!(
        columns
            .get_data(1, &[0, 0, 0, 0, 0, 0, 0, 0, 0, 11, 0, 85, 115, 101, 114])
            .unwrap(),
        "User".into()
    );

    assert_eq!(
        columns
            .generate_row(vec![Value::Null, Value::Null])
            .unwrap(),
        vec![0, 0, 0, 0, 0, 0, 0, 0, 0, 0, 0]
    );
    assert_eq!(
        columns
            .get_data("id", &[0, 0, 0, 0, 0, 0, 0, 0, 0, 0, 0])
            .unwrap(),
        Value::Null
    );
    assert_eq!(
        columns
            .get_data(0, &[0, 0, 0, 0, 0, 0, 0, 0, 0, 0, 0])
            .unwrap(),
        Value::Null
    );
    assert_eq!(
        columns
            .get_data("name", &[0, 0, 0, 0, 0, 0, 0, 0, 0, 0, 0])
            .unwrap(),
        Value::Null
    );
    assert_eq!(
        columns
            .get_data(1, &[0, 0, 0, 0, 0, 0, 0, 0, 0, 0, 0])
            .unwrap(),
        Value::Null
    );
}

#[test]
fn unsized_then_sized() {
    let mut columns = Columns::new();
    columns
        .add_column("name".to_string(), Type::String)
        .unwrap();
    columns.add_column("id".to_string(), Type::Integer).unwrap();
    assert_eq!(
        columns
            .generate_row(vec!["User".into(), 25.into()])
            .unwrap(),
        vec![0, 0, 0, 0, 0, 0, 0, 25, 0, 11, 1, 85, 115, 101, 114]
    );
    assert_eq!(
        columns
            .get_data(
                "id",
                &[0, 0, 0, 0, 0, 0, 0, 25, 0, 11, 1, 85, 115, 101, 114]
            )
            .unwrap(),
        25.into()
    );
    assert_eq!(
        columns
            .get_data(1, &[0, 0, 0, 0, 0, 0, 0, 25, 0, 11, 1, 85, 115, 101, 114])
            .unwrap(),
        25.into()
    );
    assert_eq!(
        columns
            .get_data(
                "name",
                &[0, 0, 0, 0, 0, 0, 0, 25, 0, 11, 1, 85, 115, 101, 114]
            )
            .unwrap(),
        "User".into()
    );
    assert_eq!(
        columns
            .get_data(0, &[0, 0, 0, 0, 0, 0, 0, 25, 0, 11, 1, 85, 115, 101, 114])
            .unwrap(),
        "User".into()
    );

    assert_eq!(
        columns
            .generate_row(vec![Value::Null, 25.into()])
            .unwrap(),
        vec![0, 0, 0, 0, 0, 0, 0, 25, 0, 0, 1]
    );
    assert_eq!(
        columns
            .get_data("id", &[0, 0, 0, 0, 0, 0, 0, 25, 0, 0, 1])
            .unwrap(),
        25.into()
    );
    assert_eq!(
        columns
            .get_data(1, &[0, 0, 0, 0, 0, 0, 0, 25, 0, 0, 1])
            .unwrap(),
        25.into()
    );
    assert_eq!(
        columns
            .get_data("name", &[0, 0, 0, 0, 0, 0, 0, 25, 0, 0, 1])
            .unwrap(),
        Value::Null
    );
    assert_eq!(
        columns
            .get_data(0, &[0, 0, 0, 0, 0, 0, 0, 25, 0, 0, 1])
            .unwrap(),
        Value::Null
    );

    assert_eq!(
        columns
            .generate_row(vec!["User".into(), Value::Null])
            .unwrap(),
        vec![0, 0, 0, 0, 0, 0, 0, 0, 0, 11, 0, 85, 115, 101, 114]
    );
    assert_eq!(
        columns
            .get_data("id", &[0, 0, 0, 0, 0, 0, 0, 0, 0, 11, 0, 85, 115, 101, 114])
            .unwrap(),
        Value::Null
    );
    assert_eq!(
        columns
            .get_data(1, &[0, 0, 0, 0, 0, 0, 0, 0, 0, 11, 0, 85, 115, 101, 114])
            .unwrap(),
        Value::Null
    );
    assert_eq!(
        columns
            .get_data(
                "name",
                &[0, 0, 0, 0, 0, 0, 0, 0, 0, 11, 0, 85, 115, 101, 114]
            )
            .unwrap(),
        "User".into()
    );
    assert_eq!(
        columns
            .get_data(0, &[0, 0, 0, 0, 0, 0, 0, 0, 0, 11, 0, 85, 115, 101, 114])
            .unwrap(),
        "User".into()
    );

    assert_eq!(
        columns
            .generate_row(vec![Value::Null, Value::Null])
            .unwrap(),
        vec![0, 0, 0, 0, 0, 0, 0, 0, 0, 0, 0]
    );
    assert_eq!(
        columns
            .get_data("id", &[0, 0, 0, 0, 0, 0, 0, 0, 0, 0, 0])
            .unwrap(),
        Value::Null
    );
    assert_eq!(
        columns
            .get_data(1, &[0, 0, 0, 0, 0, 0, 0, 0, 0, 0, 0])
            .unwrap(),
        Value::Null
    );
    assert_eq!(
        columns
            .get_data("name", &[0, 0, 0, 0, 0, 0, 0, 0, 0, 0, 0])
            .unwrap(),
        Value::Null
    );
    assert_eq!(
        columns
            .get_data(0, &[0, 0, 0, 0, 0, 0, 0, 0, 0, 0, 0])
            .unwrap(),
        Value::Null
    );
}

#[test]
fn multiple_sized() {
    let mut columns = Columns::new();
    columns.add_column("id".to_string(), Type::Integer).unwrap();
    columns
        .add_column("age".to_string(), Type::Integer)
        .unwrap();
    assert_eq!(
        columns
            .generate_row(vec![1.into(), 25.into()])
            .unwrap(),
        vec![0, 0, 0, 0, 0, 0, 0, 1, 0, 0, 0, 0, 0, 0, 0, 25, 3]
    );
    assert_eq!(
        columns
            .get_data("id", &[0, 0, 0, 0, 0, 0, 0, 1, 0, 0, 0, 0, 0, 0, 0, 25, 3])
            .unwrap(),
        1.into()
    );
    assert_eq!(
        columns
            .get_data(0, &[0, 0, 0, 0, 0, 0, 0, 1, 0, 0, 0, 0, 0, 0, 0, 25, 3])
            .unwrap(),
        1.into()
    );
    assert_eq!(
        columns
            .get_data("age", &[0, 0, 0, 0, 0, 0, 0, 1, 0, 0, 0, 0, 0, 0, 0, 25, 3])
            .unwrap(),
        25.into()
    );
    assert_eq!(
        columns
            .get_data(1, &[0, 0, 0, 0, 0, 0, 0, 1, 0, 0, 0, 0, 0, 0, 0, 25, 3])
            .unwrap(),
        25.into()
    );

    assert_eq!(
        columns
            .generate_row(vec![1.into(), Value::Null])
            .unwrap(),
        vec![0, 0, 0, 0, 0, 0, 0, 1, 0, 0, 0, 0, 0, 0, 0, 0, 1]
    );
    assert_eq!(
        columns
            .get_data("id", &[0, 0, 0, 0, 0, 0, 0, 1, 0, 0, 0, 0, 0, 0, 0, 0, 1])
            .unwrap(),
        1.into()
    );
    assert_eq!(
        columns
            .get_data(0, &[0, 0, 0, 0, 0, 0, 0, 1, 0, 0, 0, 0, 0, 0, 0, 0, 1])
            .unwrap(),
        1.into()
    );
    assert_eq!(
        columns
            .get_data("age", &[0, 0, 0, 0, 0, 0, 0, 1, 0, 0, 0, 0, 0, 0, 0, 0, 1])
            .unwrap(),
        Value::Null
    );
    assert_eq!(
        columns
            .get_data(1, &[0, 0, 0, 0, 0, 0, 0, 1, 0, 0, 0, 0, 0, 0, 0, 0, 1])
            .unwrap(),
        Value::Null
    );

    assert_eq!(
        columns
            .generate_row(vec![Value::Null, 25.into()])
            .unwrap(),
        vec![0, 0, 0, 0, 0, 0, 0, 0, 0, 0, 0, 0, 0, 0, 0, 25, 2]
    );
    assert_eq!(
        columns
            .get_data("id", &[0, 0, 0, 0, 0, 0, 0, 0, 0, 0, 0, 0, 0, 0, 0, 25, 2])
            .unwrap(),
        Value::Null
    );
    assert_eq!(
        columns
            .get_data(0, &[0, 0, 0, 0, 0, 0, 0, 0, 0, 0, 0, 0, 0, 0, 0, 25, 2])
            .unwrap(),
        Value::Null
    );
    assert_eq!(
        columns
            .get_data("age", &[0, 0, 0, 0, 0, 0, 0, 0, 0, 0, 0, 0, 0, 0, 0, 25, 2])
            .unwrap(),
        25.into()
    );
    assert_eq!(
        columns
            .get_data(1, &[0, 0, 0, 0, 0, 0, 0, 0, 0, 0, 0, 0, 0, 0, 0, 25, 2])
            .unwrap(),
        25.into()
    );

    assert_eq!(
        columns
            .generate_row(vec![Value::Null, Value::Null])
            .unwrap(),
        vec![0, 0, 0, 0, 0, 0, 0, 0, 0, 0, 0, 0, 0, 0, 0, 0, 0]
    );
    assert_eq!(
        columns
            .get_data("id", &[0, 0, 0, 0, 0, 0, 0, 0, 0, 0, 0, 0, 0, 0, 0, 0, 0])
            .unwrap(),
        Value::Null
    );
    assert_eq!(
        columns
            .get_data(0, &[0, 0, 0, 0, 0, 0, 0, 0, 0, 0, 0, 0, 0, 0, 0, 0, 0])
            .unwrap(),
        Value::Null
    );
    assert_eq!(
        columns
            .get_data("age", &[0, 0, 0, 0, 0, 0, 0, 0, 0, 0, 0, 0, 0, 0, 0, 0, 0])
            .unwrap(),
        Value::Null
    );
    assert_eq!(
        columns
            .get_data(1, &[0, 0, 0, 0, 0, 0, 0, 0, 0, 0, 0, 0, 0, 0, 0, 0, 0])
            .unwrap(),
        Value::Null
    );
}

#[test]
fn multiple_unsized() {
    let mut columns = Columns::new();
    columns
        .add_column("name".to_string(), Type::String)
        .unwrap();
    columns
        .add_column("hobby".to_string(), Type::String)
        .unwrap();
    assert_eq!(
        columns
            .generate_row(vec!["User".into(), "Music".into()])
            .unwrap(),
        vec![0, 4, 0, 8, 85, 115, 101, 114, 77, 117, 115, 105, 99]
    );
    assert_eq!(
        columns
            .get_data(
                "name",
                &[0, 4, 0, 8, 85, 115, 101, 114, 77, 117, 115, 105, 99]
            )
            .unwrap(),
        "User".into()
    );
    assert_eq!(
        columns
            .get_data(0, &[0, 4, 0, 8, 85, 115, 101, 114, 77, 117, 115, 105, 99])
            .unwrap(),
        "User".into()
    );
    assert_eq!(
        columns
            .get_data(
                "hobby",
                &[0, 4, 0, 8, 85, 115, 101, 114, 77, 117, 115, 105, 99]
            )
            .unwrap(),
        "Music".into()
    );
    assert_eq!(
        columns
            .get_data(1, &[0, 4, 0, 8, 85, 115, 101, 114, 77, 117, 115, 105, 99])
            .unwrap(),
        "Music".into()
    );

    assert_eq!(
        columns
            .generate_row(vec!["User".into(), Value::Null])
            .unwrap(),
        vec![0, 4, 0, 0, 85, 115, 101, 114]
    );
    assert_eq!(
        columns
            .get_data("name", &[0, 4, 0, 0, 85, 115, 101, 114])
            .unwrap(),
        "User".into()
    );
    assert_eq!(
        columns
            .get_data(0, &[0, 4, 0, 0, 85, 115, 101, 114])
            .unwrap(),
        "User".into()
    );
    assert_eq!(
        columns
            .get_data("hobby", &[0, 4, 0, 0, 85, 115, 101, 114])
            .unwrap(),
        Value::Null
    );
    assert_eq!(
        columns
            .get_data(1, &[0, 4, 0, 0, 85, 115, 101, 114])
            .unwrap(),
        Value::Null
    );

    assert_eq!(
        columns
            .generate_row(vec![Value::Null, "Music".into()])
            .unwrap(),
        vec![0, 0, 0, 4, 77, 117, 115, 105, 99]
    );
    assert_eq!(
        columns
            .get_data("name", &[0, 0, 0, 4, 77, 117, 115, 105, 99])
            .unwrap(),
        Value::Null
    );
    assert_eq!(
        columns
            .get_data(0, &[0, 0, 0, 4, 77, 117, 115, 105, 99])
            .unwrap(),
        Value::Null
    );
    assert_eq!(
        columns
            .get_data("hobby", &[0, 0, 0, 4, 77, 117, 115, 105, 99])
            .unwrap(),
        "Music".into()
    );
    assert_eq!(
        columns
            .get_data(1, &[0, 0, 0, 4, 77, 117, 115, 105, 99])
            .unwrap(),
        "Music".into()
    );

    assert_eq!(
        columns
            .generate_row(vec![Value::Null, Value::Null])
            .unwrap(),
        vec![0, 0, 0, 0]
    );
    assert_eq!(
        columns.get_data("name", &[0, 0, 0, 0]).unwrap(),
        Value::Null
    );
    assert_eq!(columns.get_data(0, &[0, 0, 0, 0]).unwrap(), Value::Null);
    assert_eq!(
        columns.get_data("hobby", &[0, 0, 0, 0]).unwrap(),
        Value::Null
    );
    assert_eq!(columns.get_data(1, &[0, 0, 0, 0]).unwrap(), Value::Null);
}
