use carcosa::error::Error;
use carcosa::ident::Identifier;
use carcosa::values::{ObjectEntries, Value, ValueType};

#[test]
fn number_cast_succeeds() {
    let r: Result<i64, Error> = ValueType::number().resolve(Value::Number(3));
    assert_eq!(r.unwrap(), 3);
}

#[test]
fn number_cast_from_string_fails_with_datatype_error() {
    let r: Result<i64, Error> = ValueType::number().resolve(Value::String("3".to_string()));
    match r {
        Err(Error::InvalidCastDatatype { value_type, value }) => {
            assert!(matches!(value_type, ValueType::Number));
            match value {
                Value::String(s) => assert_eq!(s, "3"),
                _ => panic!("wrong captured value"),
            }
        },
        _ => panic!("expected InvalidCastDatatype"),
    }
}

#[test]
fn optional_string_cast_of_null_yields_none() {
    let t = ValueType::optional(ValueType::string());
    let r: Result<Option<String>, Error> = t.resolve(Value::Null);
    assert_eq!(r.unwrap(), None);
}

#[test]
fn optional_string_cast_of_string_yields_some() {
    let t = ValueType::optional(ValueType::string());
    let r: Result<Option<String>, Error> = t.resolve(Value::String("hi".to_string()));
    assert_eq!(r.unwrap(), Some("hi".to_string()));
}

#[test]
fn wrong_kind_fails_with_invalid_cast() {
    let r: Result<bool, Error> = ValueType::string().resolve(Value::Bool(true));
    match r {
        Err(Error::InvalidCast { value_type, expected_type }) => {
            assert!(matches!(value_type, ValueType::String));
            assert_eq!(expected_type, "boolean");
        },
        _ => panic!("expected InvalidCast"),
    }
}

#[test]
fn bool_and_string_casts() {
    let b: bool = ValueType::boolean().resolve(Value::Bool(true)).unwrap();
    assert!(b);
    let s: String = ValueType::string()
        .resolve(Value::String("x".to_string()))
        .unwrap();
    assert_eq!(s, "x");
}

#[test]
fn array_cast_extracts_every_element() {
    let t = ValueType::array(ValueType::number());
    let v = Value::Array(vec![Value::Number(1), Value::Number(2), Value::Number(3)]);
    let r: Vec<i64> = t.resolve(v).unwrap();
    assert_eq!(r, vec![1, 2, 3]);
}

#[test]
fn array_cast_short_circuits_on_first_bad_element() {
    let t = ValueType::array(ValueType::number());
    let v = Value::Array(vec![Value::Number(1), Value::Bool(false), Value::Number(3)]);
    let r: Result<Vec<i64>, Error> = t.resolve(v);
    match r {
        Err(Error::InvalidCastDatatype { value_type, value }) => {
            assert!(matches!(value_type, ValueType::Number));
            assert!(matches!(value, Value::Bool(false)));
        },
        _ => panic!("expected the inner element's fault"),
    }
}

#[test]
fn object_cast_keeps_keys_in_order() {
    let t = ValueType::object(ValueType::boolean());
    let v = Value::Object(vec![
        ("a".to_string(), Value::Bool(true)),
        ("b".to_string(), Value::Bool(false)),
    ]);
    let r: ObjectEntries<bool> = t.resolve(v).unwrap();
    assert_eq!(r.entries.len(), 2);
    assert_eq!(r.entries[0].0, "a");
    assert_eq!(r.entries[0].1, true);
    assert_eq!(r.entries[1].0, "b");
    assert_eq!(r.entries[1].1, false);
}

#[test]
fn opaque_cast_returns_the_value_unchanged() {
    let r: Value = ValueType::opaque().resolve(Value::Number(9)).unwrap();
    assert!(matches!(r, Value::Number(9)));
}

#[test]
fn identifier_cast_accepts_only_uuid_strings() {
    let fresh = Identifier::new();
    let good = Value::String(fresh.text().clone());
    let r: Result<Identifier, Error> = ValueType::identifier().resolve(good);
    assert_eq!(r.unwrap().text(), fresh.text());

    let bad = Value::String("not-a-uuid".to_string());
    let r2: Result<Identifier, Error> = ValueType::identifier().resolve(bad);
    assert!(matches!(r2, Err(Error::InvalidCastDatatype { .. })));
}

#[test]
fn validate_scalars() {
    assert!(ValueType::boolean().validate(&Value::Bool(false)));
    assert!(!ValueType::boolean().validate(&Value::Number(0)));
    assert!(ValueType::number().validate(&Value::Number(7)));
    assert!(!ValueType::number().validate(&Value::String("7".to_string())));
    assert!(ValueType::string().validate(&Value::String(String::new())));
    assert!(ValueType::opaque().validate(&Value::Null));
}

#[test]
fn validate_optional_treats_null_as_valid() {
    let t = ValueType::optional(ValueType::number());
    assert!(t.validate(&Value::Null));
    assert!(t.validate(&Value::Number(1)));
    assert!(!t.validate(&Value::Bool(true)));
}

#[test]
fn validate_recurses_into_arrays_and_objects() {
    let t = ValueType::array(ValueType::boolean());
    assert!(t.validate(&Value::Array(vec![Value::Bool(true), Value::Bool(false)])));
    assert!(!t.validate(&Value::Array(vec![Value::Bool(true), Value::Number(1)])));
    assert!(t.validate(&Value::Array(vec![])));

    let o = ValueType::object(ValueType::array(ValueType::number()));
    assert!(o.validate(&Value::Object(vec![(
        "xs".to_string(),
        Value::Array(vec![Value::Number(4)]),
    )])));
    assert!(!o.validate(&Value::Object(vec![("xs".to_string(), Value::Number(4))])));
}

#[test]
fn validate_identifier_requires_uuid_shape() {
    let fresh = Identifier::new();
    assert!(ValueType::identifier().validate(&Value::String(fresh.text().clone())));
    assert!(!ValueType::identifier().validate(&Value::String("nope".to_string())));
    assert!(!ValueType::identifier().validate(&Value::Number(1)));
}
