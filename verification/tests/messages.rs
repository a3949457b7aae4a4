use configurator::{
    ConfigError, ConfigOption, Configurator, ConfiguratorGroup, DuplicateKeyError, HasArg,
    MissingKeyError, MissingKind, Occur, OptionFault, ParsingStyle, Scalar, TomlType,
    ValidationError,
};

fn flag(long: &str, hasarg: HasArg, occur: Occur, typ: TomlType) -> ConfigOption {
    ConfigOption::new(long, "", long, "", "", hasarg, occur, typ, None)
}

fn cli(args: Vec<ConfigOption>) -> Configurator {
    Configurator::new(vec![ConfiguratorGroup {
        name: "g".to_string(),
        args,
        in_toml: false,
        in_cli: true,
    }])
    .unwrap()
}

fn words(list: &[&str]) -> Vec<String> {
    list.iter().map(|s| s.to_string()).collect()
}

#[test]
fn errors_of_a_pass_say_what_failed() {
    assert_eq!(
        ConfigError::ParseError { text: "abc".to_string(), target: TomlType::Integer }.message(),
        "Cannot parse 'abc' as integer"
    );
    assert_eq!(
        ConfigError::TypeMismatch { source: "g.o".to_string(), expected: TomlType::Boolean }
            .message(),
        "Value of 'g.o' is not of type boolean"
    );
    assert_eq!(
        ConfigError::TypeMismatch { source: "1".to_string(), expected: TomlType::Float }.message(),
        "Value of '1' is not of type float"
    );
    assert_eq!(
        ConfigError::ParseError { text: String::new(), target: TomlType::String }.message(),
        "Cannot parse '' as string"
    );
    assert_eq!(
        ConfigError::WrongContainer { path: String::new() }.message(),
        "The document is not a table"
    );
    assert_eq!(
        ConfigError::WrongContainer { path: "server".to_string() }.message(),
        "Entry 'server' of the document is not a table"
    );
    assert_eq!(
        ConfigError::MissingKey(MissingKeyError::for_key("g", "o")).message(),
        "Key o not found in group g"
    );
    assert_eq!(
        ConfigError::MissingKey(MissingKeyError::for_group("g")).message(),
        "Group g not found"
    );
}

#[test]
fn failure_of_the_parser_is_told_in_its_own_words() {
    let mut c = cli(vec![flag("port", HasArg::Yes, Occur::Optional, TomlType::Integer)]);
    let e = c.parse_cli(&words(&["--colour"]), ParsingStyle::FloatingFrees, 0).unwrap_err();
    assert_eq!(e.message(), "Unrecognized option: 'colour'");
    let e = c.parse_cli(&words(&["--port"]), ParsingStyle::FloatingFrees, 0).unwrap_err();
    assert_eq!(e.message(), "Argument to option 'port' missing");
    assert_eq!(
        ConfigError::from(getopts::Fail::OptionMissing("port".to_string())),
        ConfigError::CliError(getopts::Fail::OptionMissing("port".to_string()))
    );
}

#[test]
fn errors_of_a_declaration_say_what_failed() {
    let bad = |fault| ValidationError::BadOption {
        group: "g".to_string(),
        index: 1,
        name: "o".to_string(),
        fault,
    };
    assert_eq!(
        bad(OptionFault::EmptyName).message(),
        "Option 'o' of group 'g' has neither a document key nor a long flag"
    );
    assert_eq!(
        bad(OptionFault::BadFlag).message(),
        "Option 'o' of group 'g' has a short flag of more than one byte or a long flag of one byte"
    );
    assert_eq!(
        bad(OptionFault::DefaultType).message(),
        "Option 'o' of group 'g' has a default that is not of its type"
    );
    assert_eq!(
        bad(OptionFault::DuplicateName).message(),
        "Option 'o' of group 'g' has the name of an earlier option of the group"
    );
    assert_eq!(
        ValidationError::DuplicateGroup(DuplicateKeyError::for_group("g")).message(),
        "Found two groups with the same key g"
    );
}

#[test]
fn missing_key_errors_name_what_was_not_found() {
    let e = MissingKeyError::for_group("g");
    assert_eq!(
        (e.kind, e.description(), e.message()),
        (MissingKind::Group, "g", "Group g not found")
    );
    let e = MissingKeyError::for_key("g", "o");
    assert_eq!(
        (e.kind, e.description(), e.message()),
        (MissingKind::Key, "o", "Key o not found in group g")
    );
}

#[test]
fn type_names_are_those_of_documents() {
    assert_eq!(TomlType::String.name(), "string");
    assert_eq!(TomlType::Integer.name(), "integer");
    assert_eq!(TomlType::Float.name(), "float");
    assert_eq!(TomlType::Boolean.name(), "boolean");
}

#[test]
fn required_option_must_occur() {
    let mut c = cli(vec![flag("port", HasArg::Yes, Occur::Req, TomlType::Integer)]);
    let e = c.parse_cli(&words(&[]), ParsingStyle::FloatingFrees, 0).unwrap_err();
    assert_eq!(e, ConfigError::CliError(getopts::Fail::OptionMissing("port".to_string())));
    let m = c.parse_cli(&words(&["--port", "1"]), ParsingStyle::FloatingFrees, 0).unwrap();
    assert_eq!(m.get("g", "port"), Some(Scalar::Integer(1)));
}

#[test]
fn option_that_occurs_often_gives_its_first_argument() {
    let mut c = cli(vec![flag("port", HasArg::Yes, Occur::Multi, TomlType::Integer)]);
    let m = c
        .parse_cli(&words(&["--port", "1", "--port", "2"]), ParsingStyle::FloatingFrees, 0)
        .unwrap();
    assert_eq!(m.get("g", "port"), Some(Scalar::Integer(1)));
}

#[test]
fn flag_without_an_argument_offers_nothing() {
    let mut c = cli(vec![
        flag("verbose", HasArg::No, Occur::Optional, TomlType::Boolean),
        flag("level", HasArg::Maybe, Occur::Optional, TomlType::Integer),
    ]);
    let m = c.parse_cli(&words(&["--verbose", "--level"]), ParsingStyle::FloatingFrees, 0).unwrap();
    assert_eq!(m.get("g", "verbose"), None);
    assert_eq!(m.get("g", "level"), None);
    let e = c.parse_cli(&words(&["--verbose=true"]), ParsingStyle::FloatingFrees, 0).unwrap_err();
    assert_eq!(e, ConfigError::CliError(getopts::Fail::UnexpectedArgument("verbose".to_string())));
    let m = c.parse_cli(&words(&["--level=4"]), ParsingStyle::FloatingFrees, 0).unwrap();
    assert_eq!(m.get("g", "level"), Some(Scalar::Integer(4)));
}

#[test]
fn literals_follow_the_grammar_of_documents() {
    assert_eq!(TomlType::Integer.to_value("1_000"), Ok(Scalar::Integer(1000)));
    assert_eq!(TomlType::Integer.to_value("0xff"), Ok(Scalar::Integer(255)));
    assert_eq!(TomlType::Float.to_value("1e3"), Ok(Scalar::Float(1000f64.to_bits())));
    assert_eq!(TomlType::Float.to_value("inf"), Ok(Scalar::Float(f64::INFINITY.to_bits())));
    assert!(TomlType::Integer.to_value("9223372036854775808").is_err());
    assert_eq!(
        TomlType::Integer.to_value("9223372036854775807"),
        Ok(Scalar::Integer(i64::MAX))
    );
    assert!(TomlType::Boolean.to_value("True").is_err());
}
