use configurator::{ConfigError, NativeValue, Scalar, TomlType};

#[test]
fn literal_of_each_type_gives_a_value_of_that_type() {
    assert_eq!(TomlType::Integer.to_value("42"), Ok(Scalar::Integer(42)));
    assert_eq!(TomlType::Integer.to_value("-7"), Ok(Scalar::Integer(-7)));
    assert_eq!(TomlType::Float.to_value("3.5"), Ok(Scalar::Float(3.5f64.to_bits())));
    assert_eq!(TomlType::Boolean.to_value("true"), Ok(Scalar::Boolean(true)));
    assert_eq!(TomlType::Boolean.to_value("false"), Ok(Scalar::Boolean(false)));
    assert_eq!(TomlType::String.to_value("plain"), Ok(Scalar::String("plain".to_string())));
    assert_eq!(TomlType::String.to_value("42"), Ok(Scalar::String("42".to_string())));
    for (typ, text) in [
        (TomlType::Integer, "42"),
        (TomlType::Float, "3.5"),
        (TomlType::Boolean, "true"),
        (TomlType::String, "s"),
    ] {
        assert_eq!(typ.to_value(text).unwrap().type_tag(), typ);
    }
}

#[test]
fn text_that_is_no_literal_is_a_parse_error() {
    assert_eq!(
        TomlType::Integer.to_value("abc"),
        Err(ConfigError::ParseError { text: "abc".to_string(), target: TomlType::Integer })
    );
    assert_eq!(
        TomlType::Boolean.to_value("yes"),
        Err(ConfigError::ParseError { text: "yes".to_string(), target: TomlType::Boolean })
    );
    assert_eq!(
        TomlType::Float.to_value(""),
        Err(ConfigError::ParseError { text: String::new(), target: TomlType::Float })
    );
}

#[test]
fn literal_of_another_type_is_a_mismatch() {
    assert_eq!(
        TomlType::Integer.to_value("3.5"),
        Err(ConfigError::TypeMismatch { source: "3.5".to_string(), expected: TomlType::Integer })
    );
    assert_eq!(
        TomlType::Float.to_value("3"),
        Err(ConfigError::TypeMismatch { source: "3".to_string(), expected: TomlType::Float })
    );
    assert_eq!(
        TomlType::Boolean.to_value("1"),
        Err(ConfigError::TypeMismatch { source: "1".to_string(), expected: TomlType::Boolean })
    );
    assert_eq!(
        TomlType::Integer.to_value("\"42\""),
        Err(ConfigError::TypeMismatch { source: "\"42\"".to_string(), expected: TomlType::Integer })
    );
    assert_eq!(
        TomlType::Integer.to_value("[1, 2]"),
        Err(ConfigError::TypeMismatch { source: "[1, 2]".to_string(), expected: TomlType::Integer })
    );
    assert_eq!(
        TomlType::Integer.to_value("1979-05-27"),
        Err(ConfigError::TypeMismatch {
            source: "1979-05-27".to_string(),
            expected: TomlType::Integer
        })
    );
}

#[test]
fn coercion_of_known_content_needs_no_parser() {
    assert_eq!(
        TomlType::Integer.to_value_of("7", Some(NativeValue::Scalar(Scalar::Integer(7)))),
        Ok(Scalar::Integer(7))
    );
    assert_eq!(
        TomlType::Integer.to_value_of("x", None),
        Err(ConfigError::ParseError { text: "x".to_string(), target: TomlType::Integer })
    );
    assert_eq!(
        TomlType::Float.to_value_of("{}", Some(NativeValue::Table)),
        Err(ConfigError::TypeMismatch { source: "{}".to_string(), expected: TomlType::Float })
    );
    assert_eq!(
        TomlType::String.to_value_of("raw", None),
        Ok(Scalar::String("raw".to_string()))
    );
    assert_eq!(
        TomlType::Boolean.check("g.b", NativeValue::Scalar(Scalar::Boolean(false))),
        Ok(Scalar::Boolean(false))
    );
    assert_eq!(
        TomlType::Boolean.check("g.b", NativeValue::Datetime),
        Err(ConfigError::TypeMismatch { source: "g.b".to_string(), expected: TomlType::Boolean })
    );
}
