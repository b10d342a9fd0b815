use cdc_pipeline::value::{encode_value, json_render, DynamicValue};

#[test]
fn null_encodes_to_null_literal() {
    assert_eq!(encode_value(&DynamicValue::Null), "NULL");
}

#[test]
fn booleans_encode_as_small_integers() {
    assert_eq!(encode_value(&DynamicValue::Boolean(true)), "1");
    assert_eq!(encode_value(&DynamicValue::Boolean(false)), "0");
}

#[test]
fn integers_encode_as_bare_decimal() {
    assert_eq!(encode_value(&DynamicValue::Int32(30)), "30");
    assert_eq!(encode_value(&DynamicValue::Int32(-5)), "-5");
    assert_eq!(encode_value(&DynamicValue::Int32(i32::MIN)), "-2147483648");
    assert_eq!(encode_value(&DynamicValue::Int64(9007199254740993)), "9007199254740993");
    assert_eq!(encode_value(&DynamicValue::Int64(i64::MIN)), "-9223372036854775808");
}

#[test]
fn double_rendering_passes_through_unquoted() {
    assert_eq!(encode_value(&DynamicValue::Double("3.25".to_string())), "3.25");
    assert_eq!(encode_value(&DynamicValue::Double(format!("{}", 0.5f64)), ), "0.5");
}

#[test]
fn strings_encode_quoted_and_escaped() {
    assert_eq!(encode_value(&DynamicValue::Text("Ann".to_string())), "'Ann'");
    assert_eq!(encode_value(&DynamicValue::Text("it's".to_string())), "'it\\'s'");
}

#[test]
fn object_id_encodes_quoted() {
    let v = DynamicValue::ObjectId("507f1f77bcf86cd799439011".to_string());
    assert_eq!(encode_value(&v), "'507f1f77bcf86cd799439011'");
}

#[test]
fn timestamp_encodes_quoted() {
    let v = DynamicValue::Timestamp("2024-01-02 03:04:05".to_string());
    assert_eq!(encode_value(&v), "'2024-01-02 03:04:05'");
}

#[test]
fn array_encodes_as_quoted_serialized_blob() {
    let v = DynamicValue::Array(vec![
        DynamicValue::Int32(1),
        DynamicValue::Text("a".to_string()),
        DynamicValue::Boolean(true),
        DynamicValue::Null,
    ]);
    assert_eq!(encode_value(&v), "'[1,\"a\",true,null]'");
}

#[test]
fn document_encodes_as_quoted_serialized_blob() {
    let v = DynamicValue::Document(vec![
        ("a".to_string(), DynamicValue::Int32(1)),
        ("b".to_string(), DynamicValue::Text("x".to_string())),
    ]);
    assert_eq!(encode_value(&v), "'{\"a\":1,\"b\":\"x\"}'");
}

#[test]
fn nested_document_serializes_recursively() {
    let inner = DynamicValue::Document(vec![(
        "deep".to_string(),
        DynamicValue::Array(vec![DynamicValue::Int64(-2)]),
    )]);
    let v = DynamicValue::Document(vec![("outer".to_string(), inner)]);
    assert_eq!(encode_value(&v), "'{\"outer\":{\"deep\":[-2]}}'");
}

#[test]
fn serialized_strings_escape_quotes_and_backslashes() {
    let v = DynamicValue::Document(vec![(
        "k".to_string(),
        DynamicValue::Text("a\"b\\c".to_string()),
    )]);
    assert_eq!(json_render(&v), "{\"k\":\"a\\\"b\\\\c\"}");
}

#[test]
fn empty_array_and_document() {
    assert_eq!(encode_value(&DynamicValue::Array(vec![])), "'[]'");
    assert_eq!(encode_value(&DynamicValue::Document(vec![])), "'{}'");
}

#[test]
fn deeply_nested_value_encodes_totally() {
    let mut v = DynamicValue::Int32(1);
    for _ in 0..50 {
        v = DynamicValue::Array(vec![v]);
    }
    let mut expected = String::from("'");
    for _ in 0..50 {
        expected.push('[');
    }
    expected.push('1');
    for _ in 0..50 {
        expected.push(']');
    }
    expected.push('\'');
    let lit = encode_value(&v);
    assert!(!lit.is_empty());
    assert_eq!(lit, expected);
}
