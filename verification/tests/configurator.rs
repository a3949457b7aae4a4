use configurator::{
    ConfigError, ConfigOption, Configurator, ConfiguratorGroup, HasArg, Occur, OptionFault,
    ParsingStyle, Scalar, TomlType, ValidationError,
};

fn option(
    toml_name: &str,
    short_name: &str,
    long_name: &str,
    typ: TomlType,
    default: Option<Scalar>,
) -> ConfigOption {
    ConfigOption::new(
        toml_name,
        short_name,
        long_name,
        "VALUE",
        "",
        HasArg::Yes,
        Occur::Optional,
        typ,
        default,
    )
}

fn server() -> ConfiguratorGroup {
    ConfiguratorGroup {
        name: "server".to_string(),
        args: vec![
            option("port", "p", "port", TomlType::Integer, Some(Scalar::Integer(8080))),
            option(
                "host",
                "",
                "host",
                TomlType::String,
                Some(Scalar::String("localhost".to_string())),
            ),
        ],
        in_toml: true,
        in_cli: true,
    }
}

fn args(list: &[&str]) -> Vec<String> {
    list.iter().map(|s| s.to_string()).collect()
}

fn document(text: &str) -> toml::Value {
    toml::Value::Table(text.parse::<toml::Table>().unwrap())
}

#[test]
fn command_line_is_stronger_than_a_later_document() {
    let mut c = Configurator::new(vec![server()]).unwrap();
    assert_eq!(c.matches().get("server", "port"), Some(Scalar::Integer(8080)));

    let m = c.parse_cli(&args(&["--port", "9090"]), ParsingStyle::FloatingFrees, 0).unwrap();
    assert_eq!(m.get("server", "port"), Some(Scalar::Integer(9090)));
    assert_eq!(c.matches().get("server", "port"), Some(Scalar::Integer(9090)));

    let m = c.parse_toml_partial(&document("[server]\nport = 7000\n"), 10).unwrap();
    assert_eq!(m.get("server", "port"), Some(Scalar::Integer(9090)));
    assert_eq!(c.matches().get("server", "port"), Some(Scalar::Integer(9090)));
    assert_eq!(c.matches().lookup("server", "port").unwrap().precedence, 0);
}

#[test]
fn document_before_the_command_line_sets_what_nothing_stronger_set() {
    let mut c = Configurator::new(vec![server()]).unwrap();
    let m = c.parse_toml_partial(&document("[server]\nhost = \"example.com\"\n"), 10).unwrap();
    assert_eq!(m.get("server", "host"), Some(Scalar::String("example.com".to_string())));
    assert_eq!(m.get("server", "port"), Some(Scalar::Integer(8080)));
    assert_eq!(c.matches().lookup("server", "host").unwrap().precedence, 10);
    assert_eq!(c.matches().lookup("server", "port").unwrap().precedence, i32::MAX);
}

#[test]
fn short_flag_and_attached_argument_are_found() {
    let mut c = Configurator::new(vec![server()]).unwrap();
    let m = c.parse_cli(&args(&["-p", "81", "--host=h"]), ParsingStyle::FloatingFrees, 0).unwrap();
    assert_eq!(m.get("server", "port"), Some(Scalar::Integer(81)));
    assert_eq!(m.get("server", "host"), Some(Scalar::String("h".to_string())));
}

#[test]
fn option_with_a_short_flag_only_is_asked_for_by_it() {
    let group = ConfiguratorGroup {
        name: "log".to_string(),
        args: vec![option("level", "l", "", TomlType::Integer, None)],
        in_toml: false,
        in_cli: true,
    };
    let mut c = Configurator::new(vec![group]).unwrap();
    assert_eq!(c.matches().get("log", "level"), None);
    assert!(c.matches().contains("log", "level"));
    let m = c.parse_cli(&args(&["-l", "3"]), ParsingStyle::FloatingFrees, 0).unwrap();
    assert_eq!(m.get("log", "level"), Some(Scalar::Integer(3)));
}

#[test]
fn option_without_flags_is_not_given_to_the_parser() {
    let group = ConfiguratorGroup {
        name: "log".to_string(),
        args: vec![
            option("file", "", "", TomlType::String, None),
            option("level", "l", "level", TomlType::Integer, None),
        ],
        in_toml: true,
        in_cli: true,
    };
    let mut c = Configurator::new(vec![group]).unwrap();
    let m = c.parse_cli(&args(&["--level", "2"]), ParsingStyle::FloatingFrees, 0).unwrap();
    assert_eq!(m.get("log", "level"), Some(Scalar::Integer(2)));
    assert_eq!(m.get("log", "file"), None);
}

#[test]
fn parser_failure_is_handed_on_and_changes_nothing() {
    let mut c = Configurator::new(vec![server()]).unwrap();
    let e = c.parse_cli(&args(&["--colour", "red"]), ParsingStyle::FloatingFrees, 0).unwrap_err();
    assert_eq!(e, ConfigError::CliError(getopts::Fail::UnrecognizedOption("colour".to_string())));
    let e = c.parse_cli(&args(&["--port"]), ParsingStyle::FloatingFrees, 0).unwrap_err();
    assert_eq!(e, ConfigError::CliError(getopts::Fail::ArgumentMissing("port".to_string())));
    let e = c
        .parse_cli(&args(&["--port", "1", "--port", "2"]), ParsingStyle::FloatingFrees, 0)
        .unwrap_err();
    assert_eq!(e, ConfigError::CliError(getopts::Fail::OptionDuplicated("port".to_string())));
    assert_eq!(c.matches().get("server", "port"), Some(Scalar::Integer(8080)));
    assert_eq!(c.matches().lookup("server", "port").unwrap().precedence, i32::MAX);
}

#[test]
fn group_outside_the_command_line_has_no_flags() {
    let mut group = server();
    group.in_cli = false;
    let mut c = Configurator::new(vec![group]).unwrap();
    let e = c.parse_cli(&args(&["--port", "1"]), ParsingStyle::FloatingFrees, 0).unwrap_err();
    assert_eq!(e, ConfigError::CliError(getopts::Fail::UnrecognizedOption("port".to_string())));
    let m = c.parse_cli(&args(&["free"]), ParsingStyle::FloatingFrees, 0).unwrap();
    assert_eq!(m.get("server", "port"), Some(Scalar::Integer(8080)));
}

#[test]
fn parsing_style_decides_what_follows_a_free_argument() {
    let mut c = Configurator::new(vec![server()]).unwrap();
    let m = c
        .parse_cli(&args(&["run", "--port", "9"]), ParsingStyle::StopAtFirstFree, 0)
        .unwrap();
    assert_eq!(m.get("server", "port"), Some(Scalar::Integer(8080)));
    let m = c.parse_cli(&args(&["run", "--port", "9"]), ParsingStyle::FloatingFrees, 0).unwrap();
    assert_eq!(m.get("server", "port"), Some(Scalar::Integer(9)));
}

#[test]
fn one_malformed_argument_aborts_the_whole_pass() {
    let mut c = Configurator::new(vec![server()]).unwrap();
    let e = c
        .parse_cli(&args(&["--host", "h", "--port", "abc"]), ParsingStyle::FloatingFrees, 0)
        .unwrap_err();
    assert_eq!(
        e,
        ConfigError::ParseError { text: "abc".to_string(), target: TomlType::Integer }
    );
    assert_eq!(c.matches().get("server", "host"), Some(Scalar::String("localhost".to_string())));
    assert_eq!(c.matches().get("server", "port"), Some(Scalar::Integer(8080)));

    let e = c.parse_cli(&args(&["--port", "3.5"]), ParsingStyle::FloatingFrees, 0).unwrap_err();
    assert_eq!(
        e,
        ConfigError::TypeMismatch { source: "3.5".to_string(), expected: TomlType::Integer }
    );
    assert_eq!(c.matches().get("server", "port"), Some(Scalar::Integer(8080)));
}

#[test]
fn document_may_omit_keys_and_groups() {
    let mut c = Configurator::new(vec![server()]).unwrap();
    let m = c.parse_toml_partial(&document(""), 10).unwrap();
    assert_eq!(m.get("server", "port"), Some(Scalar::Integer(8080)));
    let m = c.parse_toml_partial(&document("[server]\n"), 10).unwrap();
    assert_eq!(m.get("server", "port"), Some(Scalar::Integer(8080)));
    let m = c.parse_toml_partial(&document("[client]\nport = 1\n"), 10).unwrap();
    assert_eq!(m.get("server", "port"), Some(Scalar::Integer(8080)));
    assert!(!m.contains("client", "port"));
}

#[test]
fn document_entry_of_another_type_is_a_mismatch() {
    let mut c = Configurator::new(vec![server()]).unwrap();
    let e = c
        .parse_toml_partial(&document("[server]\nhost = \"h\"\nport = \"80\"\n"), 10)
        .unwrap_err();
    assert_eq!(
        e,
        ConfigError::TypeMismatch { source: "server.port".to_string(), expected: TomlType::Integer }
    );
    assert_eq!(c.matches().get("server", "host"), Some(Scalar::String("localhost".to_string())));
    let e = c.parse_toml_partial(&document("[server]\nport = 80.0\n"), 10).unwrap_err();
    assert_eq!(
        e,
        ConfigError::TypeMismatch { source: "server.port".to_string(), expected: TomlType::Integer }
    );
    let e = c.parse_toml_partial(&document("[server]\nport = [80]\n"), 10).unwrap_err();
    assert_eq!(
        e,
        ConfigError::TypeMismatch { source: "server.port".to_string(), expected: TomlType::Integer }
    );
}

#[test]
fn document_or_section_that_is_no_table_is_an_error() {
    let mut c = Configurator::new(vec![server()]).unwrap();
    let e = c.parse_toml_partial(&document("server = 5\n"), 10).unwrap_err();
    assert_eq!(e, ConfigError::WrongContainer { path: "server".to_string() });
    let e = c.parse_toml_partial(&toml::Value::Integer(5), 10).unwrap_err();
    assert_eq!(e, ConfigError::WrongContainer { path: String::new() });
    assert_eq!(c.matches().get("server", "port"), Some(Scalar::Integer(8080)));
}

#[test]
fn group_outside_documents_is_not_looked_up() {
    let mut group = server();
    group.in_toml = false;
    let mut c = Configurator::new(vec![group]).unwrap();
    let m = c.parse_toml_partial(&document("[server]\nport = \"no number\"\n"), 10).unwrap();
    assert_eq!(m.get("server", "port"), Some(Scalar::Integer(8080)));
}

#[test]
fn document_pass_takes_every_scalar_type() {
    let group = ConfiguratorGroup {
        name: "g".to_string(),
        args: vec![
            option("s", "", "", TomlType::String, None),
            option("i", "", "", TomlType::Integer, None),
            option("f", "", "", TomlType::Float, None),
            option("b", "", "", TomlType::Boolean, None),
        ],
        in_toml: true,
        in_cli: false,
    };
    let mut c = Configurator::new(vec![group]).unwrap();
    let m = c
        .parse_toml_partial(&document("[g]\ns = \"x\"\ni = -3\nf = 2.5\nb = true\n"), 1)
        .unwrap();
    assert_eq!(m.get("g", "s"), Some(Scalar::String("x".to_string())));
    assert_eq!(m.get("g", "i"), Some(Scalar::Integer(-3)));
    assert_eq!(m.get("g", "f"), Some(Scalar::Float(2.5f64.to_bits())));
    assert_eq!(m.get("g", "b"), Some(Scalar::Boolean(true)));
}

#[test]
fn equal_precedence_keeps_the_first_writer() {
    let mut c = Configurator::new(vec![server()]).unwrap();
    c.parse_toml_partial(&document("[server]\nport = 1\n"), 5).unwrap();
    c.parse_toml_partial(&document("[server]\nport = 2\n"), 5).unwrap();
    assert_eq!(c.matches().get("server", "port"), Some(Scalar::Integer(1)));
    c.parse_toml_partial(&document("[server]\nport = 3\n"), 4).unwrap();
    assert_eq!(c.matches().get("server", "port"), Some(Scalar::Integer(3)));
}

#[test]
fn two_groups_of_one_name_are_not_declared() {
    let e = Configurator::new(vec![server(), server()]).unwrap_err();
    match e {
        ValidationError::DuplicateGroup(d) => {
            assert_eq!(d.description(), "server");
            assert_eq!(d.message(), "Found two groups with the same key server");
        }
        other => panic!("{:?}", other),
    }
}

#[test]
fn two_options_of_one_name_are_not_declared() {
    let group = ConfiguratorGroup {
        name: "g".to_string(),
        args: vec![
            option("ab", "", "", TomlType::Integer, None),
            option("b", "", "", TomlType::Integer, None),
            option("", "", "ab", TomlType::Integer, None),
        ],
        in_toml: true,
        in_cli: true,
    };
    assert_eq!(
        Configurator::new(vec![server(), group]).unwrap_err(),
        ValidationError::BadOption {
            group: "g".to_string(),
            index: 2,
            name: "ab".to_string(),
            fault: OptionFault::DuplicateName,
        }
    );
}

#[test]
fn option_without_a_name_is_not_declared() {
    let group = ConfiguratorGroup {
        name: "g".to_string(),
        args: vec![option("", "x", "", TomlType::Integer, None)],
        in_toml: true,
        in_cli: true,
    };
    assert_eq!(
        Configurator::new(vec![group]).unwrap_err(),
        ValidationError::BadOption {
            group: "g".to_string(),
            index: 0,
            name: String::new(),
            fault: OptionFault::EmptyName,
        }
    );
}

#[test]
fn flags_that_the_parser_would_refuse_are_not_declared() {
    let long_short = ConfiguratorGroup {
        name: "g".to_string(),
        args: vec![option("a", "ab", "", TomlType::Integer, None)],
        in_toml: true,
        in_cli: true,
    };
    assert_eq!(
        Configurator::new(vec![long_short]).unwrap_err(),
        ValidationError::BadOption {
            group: "g".to_string(),
            index: 0,
            name: "a".to_string(),
            fault: OptionFault::BadFlag,
        }
    );
    let wide_short = ConfiguratorGroup {
        name: "g".to_string(),
        args: vec![option("a", "\u{e9}", "", TomlType::Integer, None)],
        in_toml: true,
        in_cli: true,
    };
    assert!(Configurator::new(vec![wide_short]).is_err());
    let short_long = ConfiguratorGroup {
        name: "g".to_string(),
        args: vec![option("a", "", "b", TomlType::Integer, None)],
        in_toml: true,
        in_cli: true,
    };
    assert_eq!(
        Configurator::new(vec![short_long]).unwrap_err(),
        ValidationError::BadOption {
            group: "g".to_string(),
            index: 0,
            name: "a".to_string(),
            fault: OptionFault::BadFlag,
        }
    );
}

#[test]
fn default_of_another_type_is_not_declared() {
    let group = ConfiguratorGroup {
        name: "g".to_string(),
        args: vec![option("a", "", "", TomlType::Integer, Some(Scalar::Boolean(true)))],
        in_toml: true,
        in_cli: true,
    };
    assert_eq!(
        Configurator::new(vec![group]).unwrap_err(),
        ValidationError::BadOption {
            group: "g".to_string(),
            index: 0,
            name: "a".to_string(),
            fault: OptionFault::DefaultType,
        }
    );
}

#[test]
fn first_fault_in_declaration_order_is_reported() {
    let first = ConfiguratorGroup {
        name: "g".to_string(),
        args: vec![
            option("a", "", "", TomlType::Integer, None),
            option("b", "xy", "", TomlType::Integer, Some(Scalar::Boolean(true))),
        ],
        in_toml: true,
        in_cli: true,
    };
    let second = ConfiguratorGroup {
        name: "g".to_string(),
        args: vec![option("", "", "", TomlType::Integer, None)],
        in_toml: true,
        in_cli: true,
    };
    assert_eq!(
        Configurator::new(vec![first, second]).unwrap_err(),
        ValidationError::BadOption {
            group: "g".to_string(),
            index: 1,
            name: "b".to_string(),
            fault: OptionFault::BadFlag,
        }
    );
}

#[test]
fn effective_name_is_the_document_key_before_the_long_flag() {
    assert_eq!(option("key", "", "flag", TomlType::Integer, None).get_name(), "key");
    assert_eq!(option("", "", "flag", TomlType::Integer, None).get_name(), "flag");
    assert_eq!(option("", "f", "", TomlType::Integer, None).get_name(), "");
    let group = ConfiguratorGroup {
        name: "g".to_string(),
        args: vec![option("key", "", "flag", TomlType::Integer, None)],
        in_toml: true,
        in_cli: true,
    };
    let mut c = Configurator::new(vec![group]).unwrap();
    let m = c.parse_cli(&args(&["--flag", "7"]), ParsingStyle::FloatingFrees, 0).unwrap();
    assert_eq!(m.get("g", "key"), Some(Scalar::Integer(7)));
    assert_eq!(m.get("g", "flag"), None);
}

#[test]
fn flag_shared_by_two_groups_sets_both() {
    let mut client = server();
    client.name = "client".to_string();
    let mut c = Configurator::new(vec![server(), client]).unwrap();
    let m = c.parse_cli(&args(&["--port", "5"]), ParsingStyle::FloatingFrees, 0).unwrap();
    assert_eq!(m.get("server", "port"), Some(Scalar::Integer(5)));
    assert_eq!(m.get("client", "port"), Some(Scalar::Integer(5)));
    assert_eq!(m.get("client", "host"), Some(Scalar::String("localhost".to_string())));
}

#[test]
fn declarations_without_groups_resolve_nothing() {
    let mut c = Configurator::new(Vec::new()).unwrap();
    assert!(c.parse_cli(&args(&["free", "--", "-x"]), ParsingStyle::FloatingFrees, 0).is_ok());
    assert!(c.parse_cli(&args(&["-x"]), ParsingStyle::FloatingFrees, 0).is_err());
    assert!(c.parse_toml_partial(&document("[a]\nb = 1\n"), 1).is_ok());
    assert_eq!(c.get("a", "b"), None);
}
