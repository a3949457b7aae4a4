use configurator::{ConfigOption, ConfiguratorGroup, HasArg, Matches, Occur, Scalar, TomlType};

fn integer_field(name: &str, default: Option<i64>) -> ConfigOption {
    ConfigOption::new(
        name,
        "",
        "",
        "",
        "",
        HasArg::Yes,
        Occur::Optional,
        TomlType::Integer,
        default.map(Scalar::Integer),
    )
}

#[test]
fn it_works() {
    let record = ConfiguratorGroup {
        name: "MyConfig".to_string(),
        args: vec![integer_field("x", None), integer_field("y", Some(4))],
        in_toml: true,
        in_cli: false,
    };
    let mut c = Matches::from_configs(&vec![record]).unwrap();
    c.update("MyConfig", "x", Scalar::Integer(3), 0).unwrap();
    println!("{:?}", c);

    assert!(
        c.get("MyConfig", "x") == Some(Scalar::Integer(3))
            && c.get("MyConfig", "y") == Some(Scalar::Integer(4))
    );
}
