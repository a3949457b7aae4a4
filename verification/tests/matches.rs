use configurator::{
    ConfigOption, ConfiguratorGroup, HasArg, Matches, MissingKind, Occur, Scalar, TomlType,
};

fn server_group() -> ConfiguratorGroup {
    ConfiguratorGroup {
        name: "server".to_string(),
        args: vec![
            ConfigOption::new(
                "port",
                "p",
                "port",
                "PORT",
                "port to listen on",
                HasArg::Yes,
                Occur::Optional,
                TomlType::Integer,
                Some(Scalar::Integer(8080)),
            ),
            ConfigOption::new(
                "host",
                "",
                "host",
                "HOST",
                "address to bind",
                HasArg::Yes,
                Occur::Optional,
                TomlType::String,
                Some(Scalar::String("localhost".to_string())),
            ),
        ],
        in_toml: true,
        in_cli: true,
    }
}

#[test]
fn seed_holds_the_defaults() {
    let m = Matches::from_configs(&vec![server_group()]).unwrap();
    assert_eq!(m.get("server", "port"), Some(Scalar::Integer(8080)));
    assert_eq!(m.get("server", "host"), Some(Scalar::String("localhost".to_string())));
    assert_eq!(m.lookup("server", "port").unwrap().precedence, i32::MAX);
}

#[test]
fn update_takes_only_a_stronger_source() {
    let mut m = Matches::from_configs(&vec![server_group()]).unwrap();
    m.update("server", "port", Scalar::Integer(7000), 10).unwrap();
    assert_eq!(m.get("server", "port"), Some(Scalar::Integer(7000)));
    m.update("server", "port", Scalar::Integer(7001), 10).unwrap();
    assert_eq!(m.get("server", "port"), Some(Scalar::Integer(7000)));
    m.update("server", "port", Scalar::Integer(9090), 0).unwrap();
    assert_eq!(m.get("server", "port"), Some(Scalar::Integer(9090)));
    m.update("server", "port", Scalar::Integer(1), 5).unwrap();
    assert_eq!(m.get("server", "port"), Some(Scalar::Integer(9090)));
}

#[test]
fn update_of_an_undeclared_slot_fails() {
    let mut m = Matches::from_configs(&vec![server_group()]).unwrap();
    let e = m.update("client", "port", Scalar::Integer(1), 0).unwrap_err();
    assert_eq!(e.kind, MissingKind::Group);
    assert_eq!(e.description(), "client");
    assert_eq!(e.message(), "Group client not found");
    let e = m.update("server", "colour", Scalar::Integer(1), 0).unwrap_err();
    assert_eq!(e.kind, MissingKind::Key);
    assert_eq!(e.description(), "colour");
    assert_eq!(e.message(), "Key colour not found in group server");
    assert!(!m.contains("client", "port"));
    assert!(!m.contains("server", "colour"));
    assert_eq!(m.get("server", "port"), Some(Scalar::Integer(8080)));
}

#[test]
fn two_groups_of_one_name_are_refused() {
    let e = Matches::from_configs(&vec![server_group(), server_group()]).unwrap_err();
    assert_eq!(e.description(), "server");
    assert_eq!(e.message(), "Found two groups with the same key server");
}
