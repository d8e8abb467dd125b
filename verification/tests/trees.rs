use stardust_db::ast::{ForeignKey, ForeignKeyAction};
use stardust_db::data_types::Value;
use stardust_db::error::Error;
use stardust_db::foreign_key::{join_names, record_of, record_values, split_names};
use stardust_db::table_handler::{key_bytes, next_key, TableRow, Tree};

fn names(list: &[&str]) -> Vec<String> {
    list.iter().map(|n| n.to_string()).collect()
}

#[test]
fn a_store_keeps_its_rows_by_key() {
    let mut tree = Tree::new();
    assert_eq!(tree.len(), 0);
    assert!(tree.last().is_none());
    tree.insert(vec![0, 2], vec![20]);
    tree.insert(vec![0, 1], vec![10]);
    tree.insert(vec![0, 3], vec![30]);
    tree.insert(vec![0], vec![0]);
    let keys: Vec<Vec<u8>> = tree.rows().iter().map(|r| r.key().clone()).collect();
    assert_eq!(keys, vec![vec![0], vec![0, 1], vec![0, 2], vec![0, 3]]);
    assert_eq!(tree.find(&vec![0, 2]), Some(2));
    assert_eq!(tree.find(&vec![0, 4]), None);
    assert_eq!(tree.row(1).data(), &vec![10]);
    tree.insert(vec![0, 1], vec![11]);
    assert_eq!(tree.len(), 4);
    assert_eq!(tree.row(1).data(), &vec![11]);
    assert_eq!(tree.last().unwrap().key(), &vec![0, 3]);
    assert!(tree.remove(&vec![0, 2]));
    assert!(!tree.remove(&vec![0, 2]));
    assert_eq!(tree.len(), 3);
    assert_eq!(tree.find(&vec![0, 3]), Some(2));
    let copy = tree.duplicate();
    assert_eq!(copy.rows().len(), 3);
    assert!(copy.row(2).same_key(tree.row(2)));
    assert!(!copy.row(1).same_key(tree.row(2)));
    assert!(TableRow::new(vec![], vec![]).is_empty());
    assert!(!TableRow::new(vec![1], vec![]).is_empty());
}

#[test]
fn keys_count_up_from_zero() {
    assert_eq!(key_bytes(0), vec![0; 8]);
    assert_eq!(key_bytes(258), vec![0, 0, 0, 0, 0, 0, 1, 2]);
    assert_eq!(key_bytes(u64::MAX), vec![255; 8]);
    let mut tree = Tree::new();
    assert_eq!(next_key(&tree).unwrap(), 0);
    tree.insert(key_bytes(0), vec![]);
    assert_eq!(next_key(&tree).unwrap(), 1);
    tree.insert(key_bytes(255), vec![]);
    assert_eq!(next_key(&tree).unwrap(), 256);
    tree.remove(&key_bytes(0));
    assert_eq!(next_key(&tree).unwrap(), 256);
    tree.insert(key_bytes(u64::MAX), vec![]);
    assert!(matches!(next_key(&tree), Err(Error::Internal(_))));
    let mut short = Tree::new();
    short.insert(vec![1, 2, 3], vec![]);
    assert!(matches!(next_key(&short), Err(Error::Internal(_))));
}

#[test]
fn names_are_joined_and_split_at_bars() {
    assert_eq!(join_names(&names(&[])), "");
    assert_eq!(join_names(&names(&["a"])), "a");
    assert_eq!(join_names(&names(&["a", "b", "c"])), "a|b|c");
    assert_eq!(split_names(""), names(&[""]));
    assert_eq!(split_names("a"), names(&["a"]));
    assert_eq!(split_names("a|b|c"), names(&["a", "b", "c"]));
    assert_eq!(split_names("a||"), names(&["a", "", ""]));
    for list in [names(&["x"]), names(&["x", "y"]), names(&["long name", "y", "z"])] {
        assert_eq!(split_names(&join_names(&list)), list);
    }
}

#[test]
fn a_foreign_key_is_stored_as_seven_values() {
    let key = ForeignKey::new(
        "link".to_string(),
        names(&["a", "b"]),
        "parent".to_string(),
        names(&["x", "y"]),
        Some(ForeignKeyAction::Cascade),
        None,
    );
    let values = record_values(key, "child");
    assert_eq!(
        values,
        vec![
            Value::from("link"),
            Value::from("child"),
            Value::from("a|b"),
            Value::from("parent"),
            Value::from("x|y"),
            Value::from(1),
            Value::from(0),
        ]
    );
    let record = record_of(values).unwrap();
    assert_eq!(record.name, "link");
    assert_eq!(record.table, "child");
    assert_eq!(record.columns, names(&["a", "b"]));
    assert_eq!(record.referred_table, "parent");
    assert_eq!(record.referred_columns, names(&["x", "y"]));
    assert_eq!(record.on_delete, ForeignKeyAction::Cascade);
    assert_eq!(record.on_update, ForeignKeyAction::NoAction);
    assert!(record_of(vec![Value::from("link")]).is_err());
    assert!(record_of(vec![
        Value::from("link"),
        Value::from("child"),
        Value::from("a"),
        Value::from("parent"),
        Value::from("x"),
        Value::from(9),
        Value::from(0),
    ])
    .is_err());
    assert_eq!(ForeignKeyAction::from_code(2).unwrap(), ForeignKeyAction::SetNull);
    assert_eq!(ForeignKeyAction::SetDefault.code(), 3);
    assert!(ForeignKeyAction::from_code(4).is_err());
    assert_eq!(ForeignKeyAction::default(), ForeignKeyAction::NoAction);
}
