use configurator::{
    ConfigOption, Configurator, ConfiguratorGroup, HasArg, Match, Matches, Occur, ParsingStyle,
    Scalar, TomlType,
};

fn option(name: &str, typ: TomlType, default: Option<Scalar>) -> ConfigOption {
    ConfigOption::new(name, "", "", "", "", HasArg::Yes, Occur::Optional, typ, default)
}

fn group(name: &str, args: Vec<ConfigOption>) -> ConfiguratorGroup {
    ConfiguratorGroup { name: name.to_string(), args, in_toml: true, in_cli: true }
}

fn declarations() -> Vec<ConfiguratorGroup> {
    vec![
        group(
            "server",
            vec![
                option("port", TomlType::Integer, Some(Scalar::Integer(8080))),
                option("host", TomlType::String, None),
            ],
        ),
        group("empty", vec![]),
        group(
            "log",
            vec![
                option("level", TomlType::Integer, Some(Scalar::Integer(2))),
                option("port", TomlType::Float, None),
            ],
        ),
    ]
}

#[test]
fn strongest_offer_wins_and_of_equals_the_first() {
    let mut m = Matches::from_configs(&declarations()).unwrap();
    let offers = [(50, 5), (30, 3), (31, 3), (70, 7), (10, 1), (11, 1), (20, 2)];
    let mut strongest = i32::MAX;
    let mut expected = Some(Scalar::Integer(8080));
    for (value, precedence) in offers {
        m.update("server", "port", Scalar::Integer(value), precedence).unwrap();
        if precedence < strongest {
            strongest = precedence;
            expected = Some(Scalar::Integer(value));
        }
        assert_eq!(m.get("server", "port"), expected);
        assert_eq!(m.lookup("server", "port").unwrap().precedence, strongest);
    }
    assert_eq!(m.get("server", "port"), Some(Scalar::Integer(10)));
    assert_eq!(
        m.lookup("server", "port"),
        Some(&Match { value: Some(Scalar::Integer(10)), precedence: 1 })
    );
}

#[test]
fn offer_at_the_weakest_precedence_never_replaces_a_default() {
    let mut m = Matches::from_configs(&declarations()).unwrap();
    m.update("server", "port", Scalar::Integer(1), i32::MAX).unwrap();
    assert_eq!(m.get("server", "port"), Some(Scalar::Integer(8080)));
    m.update("server", "host", Scalar::String("h".to_string()), i32::MAX).unwrap();
    assert_eq!(m.get("server", "host"), None);
    m.update("server", "host", Scalar::String("h".to_string()), i32::MAX - 1).unwrap();
    assert_eq!(m.get("server", "host"), Some(Scalar::String("h".to_string())));
    m.update("server", "host", Scalar::String("min".to_string()), i32::MIN).unwrap();
    assert_eq!(m.get("server", "host"), Some(Scalar::String("min".to_string())));
}

#[test]
fn seed_has_a_slot_for_every_declared_option() {
    let groups = declarations();
    let m = Matches::from_configs(&groups).unwrap();
    for g in &groups {
        for o in &g.args {
            assert!(m.contains(&g.name, o.get_name()));
            let slot = m.lookup(&g.name, o.get_name()).unwrap();
            assert_eq!(&slot.value, o.default());
            assert_eq!(slot.precedence, i32::MAX);
        }
    }
    assert_eq!(m.get("server", "host"), None);
    assert_eq!(m.get("log", "port"), None);
    assert!(!m.contains("empty", "port"));
    assert!(!m.contains("server", "level"));
    assert!(!m.contains("", ""));
}

#[test]
fn write_to_one_slot_leaves_the_others() {
    let mut m = Matches::from_configs(&declarations()).unwrap();
    m.update("log", "port", Scalar::Float(1.5f64.to_bits()), 3).unwrap();
    assert_eq!(m.get("log", "port"), Some(Scalar::Float(1.5f64.to_bits())));
    assert_eq!(m.get("server", "port"), Some(Scalar::Integer(8080)));
    assert_eq!(m.get("log", "level"), Some(Scalar::Integer(2)));
    assert_eq!(m.lookup("server", "port").unwrap().precedence, i32::MAX);
}

#[test]
fn failed_write_adds_no_slot() {
    let mut m = Matches::from_configs(&declarations()).unwrap();
    assert!(m.update("empty", "port", Scalar::Integer(1), 0).is_err());
    assert!(m.update("nowhere", "port", Scalar::Integer(1), 0).is_err());
    assert!(m.update("server", "", Scalar::Integer(1), 0).is_err());
    assert!(!m.contains("empty", "port"));
    assert!(!m.contains("nowhere", "port"));
    assert!(!m.contains("server", ""));
    assert_eq!(m.get("server", "port"), Some(Scalar::Integer(8080)));
    assert_eq!(m.get("log", "level"), Some(Scalar::Integer(2)));
}

#[test]
fn later_declaration_of_a_name_counts_when_seeding() {
    let g = group(
        "g",
        vec![
            option("a", TomlType::Integer, Some(Scalar::Integer(1))),
            option("b", TomlType::Integer, Some(Scalar::Integer(2))),
            option("a", TomlType::Integer, Some(Scalar::Integer(3))),
        ],
    );
    let m = Matches::from_configs(&vec![g]).unwrap();
    assert_eq!(m.get("g", "a"), Some(Scalar::Integer(3)));
    assert_eq!(m.get("g", "b"), Some(Scalar::Integer(2)));
}

#[test]
fn first_repeated_group_is_named() {
    let groups = vec![
        group("a", vec![]),
        group("b", vec![]),
        group("c", vec![]),
        group("b", vec![]),
        group("a", vec![]),
    ];
    let e = Matches::from_configs(&groups).unwrap_err();
    assert_eq!(e.description(), "b");
    assert_eq!(e.message(), "Found two groups with the same key b");
    assert!(Matches::from_configs(&groups[..3].to_vec()).is_ok());
    assert!(Matches::from_configs(&Vec::new()).is_ok());
}

#[test]
fn copy_of_a_resolved_set_is_independent() {
    let mut m = Matches::from_configs(&declarations()).unwrap();
    let copy = m.clone();
    m.update("server", "port", Scalar::Integer(1), 0).unwrap();
    assert_eq!(copy.get("server", "port"), Some(Scalar::Integer(8080)));
    assert_eq!(m.get("server", "port"), Some(Scalar::Integer(1)));
}

#[test]
fn fresh_seed_forgets_the_passes() {
    let mut c = Configurator::new(declarations()).unwrap();
    let doc = toml::Value::Table("[server]\nport = 1\n".parse::<toml::Table>().unwrap());
    c.parse_toml_partial(&doc, 4).unwrap();
    assert_eq!(c.get("server", "port"), Some(Scalar::Integer(1)));
    assert_eq!(c.seed().get("server", "port"), Some(Scalar::Integer(8080)));
    assert_eq!(c.groups().len(), 3);
}

#[test]
fn pass_at_equal_or_weaker_precedence_changes_nothing_that_is_set() {
    let mut c = Configurator::new(declarations()).unwrap();
    let strong = toml::Value::Table(
        "[server]\nport = 1\n[log]\nlevel = 9\n".parse::<toml::Table>().unwrap(),
    );
    let weak = toml::Value::Table(
        "[server]\nport = 2\nhost = \"h\"\n[log]\nlevel = 8\n".parse::<toml::Table>().unwrap(),
    );
    c.parse_toml_partial(&strong, 3).unwrap();
    c.parse_toml_partial(&weak, 3).unwrap();
    assert_eq!(c.get("server", "port"), Some(Scalar::Integer(1)));
    assert_eq!(c.get("log", "level"), Some(Scalar::Integer(9)));
    assert_eq!(c.get("server", "host"), Some(Scalar::String("h".to_string())));
    c.parse_toml_partial(&weak, 8).unwrap();
    assert_eq!(c.get("server", "port"), Some(Scalar::Integer(1)));
    let none: Vec<String> = Vec::new();
    c.parse_cli(&none, ParsingStyle::FloatingFrees, 0).unwrap();
    assert_eq!(c.get("server", "port"), Some(Scalar::Integer(1)));
}
