use juniper::registry::BuiltinScalar;
use juniper::scalar::{parse_scalar, serialize_scalar, BuiltinValue, CoercionError};
use juniper::value::{ScalarValue, Value};

#[test]
fn round_trip_for_each_builtin() {
    let cases = vec![
        (BuiltinScalar::Int, Value::Scalar(ScalarValue::Int(-42))),
        (BuiltinScalar::Int, Value::Scalar(ScalarValue::Int(i32::MAX))),
        (BuiltinScalar::String, Value::Scalar(ScalarValue::String("hi".to_string()))),
        (BuiltinScalar::String, Value::Scalar(ScalarValue::String(String::new()))),
        (BuiltinScalar::Id, Value::Scalar(ScalarValue::String("id-1".to_string()))),
        (BuiltinScalar::Boolean, Value::Scalar(ScalarValue::Boolean(true))),
        (BuiltinScalar::Boolean, Value::Scalar(ScalarValue::Boolean(false))),
    ];
    for (kind, x) in cases {
        let parsed = parse_scalar(kind, &x).unwrap();
        assert_eq!(serialize_scalar(&parsed), x);
    }
}

#[test]
fn parse_gives_domain_values() {
    assert_eq!(
        parse_scalar(BuiltinScalar::Id, &Value::Scalar(ScalarValue::String("7".to_string()))),
        Ok(BuiltinValue::Id("7".to_string()))
    );
    assert_eq!(
        parse_scalar(BuiltinScalar::Int, &Value::Scalar(ScalarValue::Int(5))),
        Ok(BuiltinValue::Int(5))
    );
}

#[test]
fn parse_rejects_wrong_kinds() {
    assert_eq!(
        parse_scalar(BuiltinScalar::Int, &Value::Scalar(ScalarValue::String("1".to_string()))),
        Err(CoercionError { expected: BuiltinScalar::Int })
    );
    assert_eq!(
        parse_scalar(BuiltinScalar::Boolean, &Value::Null),
        Err(CoercionError { expected: BuiltinScalar::Boolean })
    );
    assert_eq!(
        parse_scalar(BuiltinScalar::String, &Value::Scalar(ScalarValue::Boolean(true))),
        Err(CoercionError { expected: BuiltinScalar::String })
    );
}

#[test]
fn id_serializes_as_string() {
    assert_eq!(
        serialize_scalar(&BuiltinValue::Id("x".to_string())),
        Value::Scalar(ScalarValue::String("x".to_string()))
    );
}
