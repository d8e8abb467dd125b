use stardust_db::ast::ComparisonOp;
use stardust_db::data_types::{
    decode_integer, encode_integer, int_to_string, nat_to_string, string_to_int, Comparison,
    TruthValue, Type, TypeContents, Value,
};
use stardust_db::error::Error;

#[test]
fn text_to_integer_reads_a_leading_number() {
    assert_eq!(string_to_int("  42"), 42);
    assert_eq!(string_to_int("\t\n -7x"), -7);
    assert_eq!(string_to_int("- 7"), 0);
    assert_eq!(string_to_int("+7"), 0);
    assert_eq!(string_to_int("--7"), 0);
    assert_eq!(string_to_int("7 8"), 7);
    assert_eq!(string_to_int("   "), 0);
    assert_eq!(string_to_int("-"), 0);
    assert_eq!(string_to_int("9223372036854775807"), i64::MAX);
    assert_eq!(string_to_int("9223372036854775808"), i64::MAX);
    assert_eq!(string_to_int("-9223372036854775808"), i64::MIN);
    assert_eq!(string_to_int("-9223372036854775809"), i64::MIN);
    assert_eq!(string_to_int("000000000000000000000000012"), 12);
}

#[test]
fn integers_are_written_in_decimal() {
    assert_eq!(int_to_string(0), "0");
    assert_eq!(int_to_string(7), "7");
    assert_eq!(int_to_string(-7), "-7");
    assert_eq!(int_to_string(1200), "1200");
    assert_eq!(int_to_string(i64::MAX), "9223372036854775807");
    assert_eq!(int_to_string(i64::MIN), "-9223372036854775808");
    assert_eq!(nat_to_string(0), "0");
    assert_eq!(nat_to_string(u64::MAX), "18446744073709551615");
}

#[test]
fn integers_are_stored_big_end_first() {
    assert_eq!(encode_integer(0), vec![0, 0, 0, 0, 0, 0, 0, 0]);
    assert_eq!(encode_integer(258), vec![0, 0, 0, 0, 0, 0, 1, 2]);
    assert_eq!(encode_integer(-1), vec![255; 8]);
    assert_eq!(encode_integer(i64::MIN), vec![128, 0, 0, 0, 0, 0, 0, 0]);
    for i in [0, 1, -1, 255, 256, -256, i64::MAX, i64::MIN, 1234567890123] {
        assert_eq!(decode_integer(&encode_integer(i)), i);
    }
}

#[test]
fn contents_are_read_from_their_bytes() {
    assert_eq!(
        Type::Integer.decode(&[0, 0, 0, 0, 0, 0, 1, 0]).unwrap(),
        TypeContents::Integer(256)
    );
    assert!(matches!(Type::Integer.decode(&[0, 1]), Err(Error::Internal(_))));
    assert!(matches!(Type::Integer.decode(&[0; 9]), Err(Error::Internal(_))));
    assert_eq!(
        Type::String.decode(&[104, 105]).unwrap(),
        TypeContents::String("hi".to_string())
    );
    assert_eq!(
        Type::String.decode(&[]).unwrap(),
        TypeContents::String(String::new())
    );
    assert_eq!(
        Type::String.decode("héllo →".as_bytes()).unwrap(),
        TypeContents::String("héllo →".to_string())
    );
    assert!(matches!(Type::String.decode(&[255, 254]), Err(Error::Internal(_))));
    assert_eq!(Type::Integer.size(), Some(8));
    assert_eq!(Type::String.size(), None);
}

#[test]
fn contents_are_written_and_read_back() {
    for contents in [
        TypeContents::Integer(-5),
        TypeContents::Integer(i64::MAX),
        TypeContents::String("".to_string()),
        TypeContents::String("grüße".to_string()),
    ] {
        let (bytes, t) = contents.encode();
        assert_eq!(t, contents.get_type());
        assert_eq!(t.decode(&bytes).unwrap(), contents);
    }
    let contents = TypeContents::String("ab".to_string());
    let (bytes, t) = contents.encode();
    assert_eq!((bytes.as_ref(), t), (&[97u8, 98][..], Type::String));
}

#[test]
fn values_are_cast_between_the_two_types() {
    assert_eq!(Value::from("12x").cast(&Type::Integer), Value::from(12));
    assert_eq!(Value::from(12).cast(&Type::String), Value::from("12"));
    assert_eq!(Value::from(-3).cast(&Type::Integer), Value::from(-3));
    assert_eq!(Value::from("s").cast(&Type::String), Value::from("s"));
    assert_eq!(Value::Null.cast(&Type::Integer), Value::Null);
    assert_eq!(Value::Null.cast(&Type::String), Value::Null);
    assert_eq!(Value::from("x").cast_int(), Some(0));
    assert_eq!(Value::Null.cast_int(), None);
    assert_eq!(Value::from(-4).cast_string().unwrap(), "-4");
    assert!(Value::Null.cast_string().is_none());
    assert_eq!(
        Type::Integer.get_contents_from_string(" 9".to_string()),
        TypeContents::Integer(9)
    );
    assert_eq!(
        Type::String.resolve_value(Value::from(9)),
        Some(TypeContents::String("9".to_string()))
    );
    assert_eq!(Type::String.resolve_value(Value::Null), None);
    assert_eq!(Value::from("a").assume_string().unwrap(), "a");
    assert!(matches!(Value::from(1).assume_string(), Err(Error::Internal(_))));
    assert_eq!(Value::from(1).assume_integer().unwrap(), 1);
    assert!(matches!(Value::Null.assume_integer(), Err(Error::Internal(_))));
    assert_eq!(Value::default(), Value::Null);
    assert_eq!(Value::from(true), Value::from(1));
    assert_eq!(Value::from("a".to_string()), Value::from("a"));
    assert_eq!(Value::from(TypeContents::Integer(2)), Value::from(2));
}

#[test]
fn truth_follows_the_integer() {
    assert_eq!(Value::Null.get_truth(), TruthValue::Unknown);
    assert_eq!(Value::from(1).get_truth(), TruthValue::True);
    assert_eq!(Value::from(0).get_truth(), TruthValue::False);
    assert_eq!(Value::from(-1).get_truth(), TruthValue::False);
    assert_eq!(Value::from("2").get_truth(), TruthValue::True);
    assert_eq!(Value::from("yes").get_truth(), TruthValue::False);
    assert!(!Value::Null.is_true());
    assert!(Value::from(5).is_true());
    assert!(Value::Null.is_null());
    assert!(!Value::from(0).is_null());
}

#[test]
fn conjunction_and_disjunction_have_three_values() {
    let yes = TruthValue::True;
    let no = TruthValue::False;
    let unknown = TruthValue::Unknown;
    let all = [yes, no, unknown];
    for a in all {
        for b in all {
            let and = if a == no || b == no {
                no
            } else if a == yes && b == yes {
                yes
            } else {
                unknown
            };
            let or = if a == yes || b == yes {
                yes
            } else if a == no && b == no {
                no
            } else {
                unknown
            };
            assert_eq!(a.and(b), and);
            assert_eq!(a.or(b), or);
        }
    }
    assert_eq!(yes.not(), no);
    assert_eq!(no.not(), yes);
    assert_eq!(unknown.not(), unknown);
    assert_eq!(yes.into_value(), Value::from(1));
    assert_eq!(no.into_value(), Value::from(0));
    assert_eq!(unknown.into_value(), Value::Null);
    assert_eq!(Value::Null.and(&Value::from(0)), Value::from(0));
    assert_eq!(Value::Null.and(&Value::from(1)), Value::Null);
    assert_eq!(Value::Null.or(&Value::from(1)), Value::from(1));
    assert_eq!(Value::from(0).or(&Value::from("0")), Value::from(0));
}

#[test]
fn comparison_orders_integers_and_bytes() {
    assert_eq!(Value::from(1).compare(&Value::from(2)), Comparison::LessThan);
    assert_eq!(Value::from(2).compare(&Value::from(2)), Comparison::Equal);
    assert_eq!(Value::from(3).compare(&Value::from(2)), Comparison::GreaterThan);
    assert_eq!(Value::from("a").compare(&Value::from("b")), Comparison::LessThan);
    assert_eq!(Value::from("a").compare(&Value::from("ab")), Comparison::LessThan);
    assert_eq!(Value::from("b").compare(&Value::from("ab")), Comparison::GreaterThan);
    assert_eq!(Value::from("10").compare(&Value::from("9")), Comparison::LessThan);
    assert_eq!(Value::from("10").compare(&Value::from(9)), Comparison::GreaterThan);
    assert_eq!(Value::from(9).compare(&Value::from("10")), Comparison::LessThan);
    assert_eq!(Value::Null.compare(&Value::Null), Comparison::Unknown);
    assert_eq!(Value::from(1).compare(&Value::Null), Comparison::Unknown);
    assert!(Value::Null.equals_or_null(&Value::from(1)));
    assert!(Value::from(1).equals_or_null(&Value::from("1")));
    assert!(!Value::from(1).equals_or_null(&Value::from(2)));
    assert!(Comparison::Equal.is_equal());
    assert!(!Comparison::Unknown.is_equal());
    assert!(Comparison::Unknown.is_equal_or_null());
    assert!(!Comparison::LessThan.is_equal_or_null());
}

#[test]
fn comparison_answers_each_operator() {
    let t = Value::from(1);
    let f = Value::from(0);
    let table = [
        (Comparison::LessThan, [&f, &t, &t, &f, &t, &f]),
        (Comparison::Equal, [&t, &f, &f, &f, &t, &t]),
        (Comparison::GreaterThan, [&f, &t, &f, &t, &f, &t]),
    ];
    let ops = [
        ComparisonOp::Eq,
        ComparisonOp::NotEq,
        ComparisonOp::Lt,
        ComparisonOp::Gt,
        ComparisonOp::LtEq,
        ComparisonOp::GtEq,
    ];
    for (comparison, expected) in table {
        for (op, value) in ops.iter().zip(expected) {
            assert_eq!(&comparison.get_value(op), value);
        }
    }
    for op in ops.iter() {
        assert_eq!(Comparison::Unknown.get_value(op), Value::Null);
    }
}

#[test]
fn an_internal_error_keeps_its_text() {
    assert_eq!(
        stardust_db::error::internal("the row is broken"),
        Error::Internal("the row is broken".to_string())
    );
    assert_eq!(stardust_db::error::internal(""), Error::Internal(String::new()));
}
