use std::cmp::Ordering;
use datafusion::arrow::{Array, DataType, Field, Schema, Value};

#[test]
fn field_renders_name_and_type() {
    let f = Field::new("lat", DataType::Float64, false);
    assert_eq!("lat: Float64", f.to_string());
}

#[test]
fn schema_renders_comma_joined() {
    let schema = Schema::new(vec![
        Field::new("name", DataType::Utf8, false),
        Field::new("lat", DataType::Float64, false),
        Field::new("lng", DataType::Float64, false),
    ]);
    assert_eq!("name: Utf8,lat: Float64,lng: Float64", schema.to_string());
}

#[test]
fn nested_type_renders_bracketed() {
    let f = Field::new(
        "pos",
        DataType::Struct(vec![
            Field::new("lat", DataType::Float64, false),
            Field::new("lng", DataType::Float64, false),
        ]),
        false,
    );
    assert_eq!("pos: Struct([lat: Float64,lng: Float64])", f.to_string());
}

#[test]
fn schema_column_finds_first_match() {
    let schema = Schema::new(vec![
        Field::new("name", DataType::Utf8, false),
        Field::new("lat", DataType::Float64, false),
        Field::new("lng", DataType::Float64, false),
    ]);
    let (i, f) = schema.column("lat").unwrap();
    assert_eq!(1, i);
    assert_eq!("lat", f.name);
    assert!(matches!(f.data_type, DataType::Float64));
    assert!(!f.nullable);
    assert!(schema.column("missing").is_none());
}

#[test]
fn schema_column_empty() {
    let schema = Schema::empty();
    assert!(schema.column("anything").is_none());
}

#[test]
fn array_len_per_variant() {
    assert_eq!(1, Array::BroadcastVariable(Value::Int32(7)).len());
    assert_eq!(3, Array::Int64(vec![1, 2, 3]).len());
    assert_eq!(2, Array::Utf8(vec!["a".to_string(), "b".to_string()]).len());
    let s = Array::Struct(vec![
        Array::Int32(vec![1, 2]),
        Array::Utf8(vec!["x".to_string(), "y".to_string()]),
    ]);
    assert_eq!(2, s.len());
}

#[test]
fn get_value_reads_rows_and_structs() {
    let col = Array::Float64(vec![1.5f64.to_bits(), 2.5f64.to_bits()]);
    match col.get_value(1) {
        Value::Float64(b) => assert_eq!(2.5f64.to_bits(), b),
        _ => panic!("wrong variant"),
    }
    let s = Array::Struct(vec![
        Array::Int32(vec![1, 2]),
        Array::Utf8(vec!["x".to_string(), "y".to_string()]),
    ]);
    match s.get_value(0) {
        Value::Struct(fields) => {
            assert!(matches!(fields[0], Value::Int32(1)));
            match &fields[1] {
                Value::Utf8(t) => assert_eq!("x", t),
                _ => panic!("wrong variant"),
            }
        }
        _ => panic!("wrong variant"),
    }
    match Array::BroadcastVariable(Value::Int64(9)).get_value(100) {
        Value::Int64(x) => assert_eq!(9, x),
        _ => panic!("wrong variant"),
    }
}

#[test]
fn eq_column_against_equal_broadcast_is_all_true() {
    let col = Array::Int32(vec![5, 5, 5]);
    let b = Array::BroadcastVariable(Value::Int32(5));
    assert_eq!(vec![true, true, true], col.eq(&b));

    let names = Array::Utf8(vec!["a".to_string(), "a".to_string()]);
    let bn = Array::BroadcastVariable(Value::Utf8("a".to_string()));
    assert_eq!(vec![true, true], names.eq(&bn));

    let lats = Array::Float64(vec![1.25f64.to_bits(), 1.25f64.to_bits()]);
    let bf = Array::BroadcastVariable(Value::Float64(1.25f64.to_bits()));
    assert_eq!(vec![true, true], lats.eq(&bf));
}

#[test]
fn comparisons_column_against_column() {
    let l = Array::Int64(vec![1, 5, 3]);
    let r = Array::Int64(vec![2, 5, 1]);
    assert_eq!(vec![true, false, false], l.lt(&r));
    assert_eq!(vec![true, true, false], l.lt_eq(&r));
    assert_eq!(vec![false, false, true], l.gt(&r));
    assert_eq!(vec![false, true, true], l.gt_eq(&r));
    assert_eq!(vec![true, false, true], l.not_eq(&r));
    // a zipped comparison truncates to the shorter column
    let short = Array::Int64(vec![0]);
    assert_eq!(vec![true], short.lt(&r));
}

#[test]
fn comparisons_on_strings_are_lexicographic() {
    let l = Array::Utf8(vec!["apple".to_string(), "pear".to_string()]);
    let r = Array::Utf8(vec!["banana".to_string(), "fig".to_string()]);
    assert_eq!(vec![true, false], l.lt(&r));
    assert_eq!(vec![false, true], l.gt(&r));
}

#[test]
fn nan_compares_unequal() {
    let col = Array::Float64(vec![f64::NAN.to_bits()]);
    let b = Array::BroadcastVariable(Value::Float64(f64::NAN.to_bits()));
    assert_eq!(vec![false], col.eq(&b));
    assert_eq!(vec![true], col.not_eq(&b));
    assert_eq!(vec![false], col.lt(&b));
}

#[test]
fn filter_all_true_copies_and_all_false_empties() {
    let col = Array::Int32(vec![7, 8, 9]);
    match col.filter(&Array::Boolean(vec![true, true, true])) {
        Array::Int32(v) => assert_eq!(vec![7, 8, 9], v),
        _ => panic!("variant changed"),
    }
    match col.filter(&Array::Boolean(vec![false, false, false])) {
        Array::Int32(v) => assert!(v.is_empty()),
        _ => panic!("variant changed"),
    }
    match col.filter(&Array::Boolean(vec![true, false, true])) {
        Array::Int32(v) => assert_eq!(vec![7, 9], v),
        _ => panic!("variant changed"),
    }
    let names = Array::Utf8(vec!["a".to_string(), "b".to_string()]);
    match names.filter(&Array::Boolean(vec![false, true])) {
        Array::Utf8(v) => assert_eq!(vec!["b".to_string()], v),
        _ => panic!("variant changed"),
    }
}

#[test]
fn filter_length_equals_true_count() {
    let col = Array::Float64(vec![1.0f64.to_bits(), 2.0f64.to_bits(), 3.0f64.to_bits()]);
    match col.filter(&Array::Boolean(vec![true, false, true])) {
        Array::Float64(v) => assert_eq!(2, v.len()),
        _ => panic!("variant changed"),
    }
}

#[test]
fn partial_cmp_wired_coercions() {
    let two = Value::Float64(2.0f64.to_bits());
    let three = Value::Int64(3);
    assert_eq!(Some(Ordering::Less), two.partial_cmp(&three));
    assert_eq!(Some(Ordering::Greater), three.partial_cmp(&two));
    assert_eq!(
        Some(Ordering::Equal),
        Value::Int64(4).partial_cmp(&Value::Float64(4.0f64.to_bits()))
    );
    assert_eq!(Some(Ordering::Less), Value::Int64(1).partial_cmp(&Value::Int64(2)));
    assert_eq!(
        Some(Ordering::Less),
        Value::Utf8("apple".to_string()).partial_cmp(&Value::Utf8("banana".to_string()))
    );
    assert_eq!(
        Some(Ordering::Equal),
        Value::Utf8("kiwi".to_string()).partial_cmp(&Value::Utf8("kiwi".to_string()))
    );
}

#[test]
fn partial_cmp_struct_has_no_ordering() {
    let s = Value::Struct(vec![Value::Int64(1)]);
    assert_eq!(None, s.partial_cmp(&Value::Int64(1)));
    assert_eq!(None, s.partial_cmp(&Value::Struct(vec![Value::Int64(1)])));
}

#[test]
fn partial_cmp_nan_has_no_ordering() {
    let nan = Value::Float64(f64::NAN.to_bits());
    assert_eq!(None, nan.partial_cmp(&Value::Float64(1.0f64.to_bits())));
    assert_eq!(None, Value::Int64(1).partial_cmp(&nan));
}
