use rust_db::text::Order;
use rust_db::value::{DataType, Value};
use std::cmp::Ordering;

fn float(x: f64) -> Value {
    Value::Float(x.to_bits())
}

#[test]
fn type_of_reports_variant() {
    assert_eq!(Value::Int(1).type_of(), Some(DataType::Int));
    assert_eq!(Value::Float(3.14f64.to_bits()).type_of(), Some(DataType::Float));
    assert_eq!(Value::Null.type_of(), None);
}

#[test]
fn null_fits_any_column() {
    assert!(Value::Null.fits(DataType::Int));
    assert!(Value::Null.fits(DataType::Text));
}

#[test]
fn type_mismatch_is_rejected() {
    assert!(Value::Int(1).fits(DataType::Int));
    assert!(!Value::Int(2).fits(DataType::Text));
    assert!(!Value::Float(3.2f64.to_bits()).fits(DataType::Int));
}

#[test]
fn numerics_cmp_across_int_and_float() {
    assert_eq!(Value::Int(1), Value::Float(1.0f64.to_bits()));
    assert!(Value::Float(3.4f64.to_bits()) > Value::Int(3));
}

#[test]
fn different_types_are_incompatible() {
    let s = Value::Text("hello".into());
    let i = Value::Int(3);

    assert_eq!(s.partial_cmp(&i), None);
    assert!(s != i);
    assert!(!((s <= i) && (i <= s)));
}

#[test]
fn null_is_never_ordered() {
    assert_eq!(Value::Null.partial_cmp(&Value::Null), None);
    assert_eq!(Value::Null.partial_cmp(&Value::Int(1)), None);
}

#[test]
fn display_is_bare() {
    assert_eq!(Value::Text("hi".into()).to_string(), "hi");
    assert_eq!(Value::Null.to_string(), "NULL");
    assert_eq!(Value::Bool(true).to_string(), "true");
}

#[test]
fn display_of_integers_and_flags() {
    assert_eq!(Value::Int(0).to_string(), "0");
    assert_eq!(Value::Int(-42).to_string(), "-42");
    assert_eq!(Value::Int(1234567890).to_string(), "1234567890");
    assert_eq!(Value::Int(i64::MIN).to_string(), i64::MIN.to_string());
    assert_eq!(Value::Int(i64::MAX).to_string(), i64::MAX.to_string());
    assert_eq!(Value::Bool(false).to_string(), "false");
}

#[test]
fn data_type_names() {
    assert_eq!(DataType::Int.name(), "INT");
    assert_eq!(DataType::Float.name(), "FLOAT");
    assert_eq!(DataType::Text.to_string(), "TEXT");
    assert_eq!(DataType::Bool.to_string(), "BOOL");
}

#[test]
fn accessors_by_variant() {
    assert_eq!(Value::Int(7).as_int(), Some(7));
    assert_eq!(Value::Bool(true).as_int(), None);
    assert_eq!(float(2.5).as_float(), Some(2.5f64.to_bits()));
    assert_eq!(Value::Int(2).as_float(), None);
    assert_eq!(Value::Text("x".into()).as_text(), Some("x"));
    assert_eq!(Value::Null.as_text(), None);
    assert_eq!(Value::Bool(false).as_bool(), Some(false));
    assert_eq!(Value::Int(0).as_bool(), None);
    assert!(Value::Null.is_null());
    assert!(!Value::Int(0).is_null());
    assert_eq!(Value::float_from_bits(1.5f64.to_bits()), float(1.5));
}

#[test]
fn conversions_build_the_matching_variant() {
    assert_eq!(Value::from(5i64).as_int(), Some(5));
    assert_eq!(Value::from("abc").as_text(), Some("abc"));
    assert_eq!(Value::from(String::from("abc")).as_text(), Some("abc"));
    assert_eq!(Value::from(true).as_bool(), Some(true));
}

#[test]
fn null_equals_only_null() {
    assert_eq!(Value::Null, Value::Null);
    assert!(Value::Null != Value::Int(0));
    assert!(Value::Text("".into()) != Value::Null);
}

#[test]
fn texts_order_lexicographically() {
    let a = Value::Text("apple".into());
    let b = Value::Text("apricot".into());
    let c = Value::Text("app".into());
    assert!(a < b);
    assert!(c < a);
    assert_eq!(a.partial_cmp(&a), Some(Ordering::Equal));
    assert_eq!(a.compare(&b), Some(Order::Less));
    assert_eq!(Value::Text("é".into()).partial_cmp(&Value::Text("z".into())), Some(Ordering::Greater));
}

#[test]
fn flags_order_false_first() {
    assert!(Value::Bool(false) < Value::Bool(true));
    assert_eq!(Value::Bool(true), Value::Bool(true));
}

#[test]
fn swapped_operands_reverse_the_order() {
    let vals = vec![
        Value::Int(-3),
        Value::Int(7),
        float(7.0),
        float(-0.0),
        float(f64::NAN),
        Value::Text("b".into()),
        Value::Bool(true),
        Value::Null,
    ];
    for a in &vals {
        for b in &vals {
            let ab = a.partial_cmp(b);
            let ba = b.partial_cmp(a);
            assert_eq!(ab.map(|o| o.reverse()), ba);
            assert_eq!(a == b, b == a);
        }
    }
}

fn sample_floats() -> Vec<f64> {
    vec![
        0.0,
        -0.0,
        1.0,
        -1.0,
        0.5,
        3.4,
        -3.4,
        1e300,
        -1e300,
        f64::MIN_POSITIVE,
        5e-324,
        -5e-324,
        f64::MAX,
        f64::MIN,
        f64::INFINITY,
        f64::NEG_INFINITY,
        f64::NAN,
        9007199254740992.0,
        9007199254740993.0,
        9223372036854775807.0,
        -9223372036854775808.0,
        18446744073709551616.0,
        123456789.0,
        2.0f64.powi(60),
    ]
}

fn sample_ints() -> Vec<i64> {
    vec![
        0,
        1,
        -1,
        3,
        7,
        123456789,
        9007199254740992,
        9007199254740993,
        9007199254740995,
        -9007199254740993,
        (1i64 << 60) + 1,
        (1i64 << 60) + (1i64 << 7),
        (1i64 << 60) + (1i64 << 8),
        (1i64 << 60) + (3i64 << 7),
        i64::MAX,
        i64::MIN,
        i64::MIN + 1,
    ]
}

#[test]
fn floats_compare_as_ieee_754() {
    for a in sample_floats() {
        for b in sample_floats() {
            assert_eq!(float(a).partial_cmp(&float(b)), a.partial_cmp(&b), "{a} vs {b}");
            assert_eq!(float(a) == float(b), a == b, "{a} vs {b}");
        }
    }
}

#[test]
fn integers_compare_with_floats_as_converted() {
    for i in sample_ints() {
        for b in sample_floats() {
            let expected = (i as f64).partial_cmp(&b);
            assert_eq!(Value::Int(i).partial_cmp(&float(b)), expected, "{i} vs {b}");
            assert_eq!(float(b).partial_cmp(&Value::Int(i)), expected.map(|o| o.reverse()), "{b} vs {i}");
            assert_eq!(Value::Int(i) == float(b), (i as f64) == b, "{i} vs {b}");
        }
        for j in sample_ints() {
            let x = j as f64;
            assert_eq!(Value::Int(i).partial_cmp(&float(x)), (i as f64).partial_cmp(&x), "{i} vs {j}");
        }
    }
}

#[test]
fn rounding_makes_large_integers_equal_to_nearby_floats() {
    assert_eq!(Value::Int(9007199254740993), float(9007199254740992.0));
    assert_eq!(Value::Int(i64::MAX), float(9223372036854775808.0));
    assert!(Value::Int(9007199254740993) < float(9007199254740994.0));
}

#[test]
fn nan_equals_nothing() {
    let n = float(f64::NAN);
    assert!(n != n);
    assert_eq!(n.partial_cmp(&Value::Int(0)), None);
}
