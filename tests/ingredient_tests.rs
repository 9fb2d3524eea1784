use kitchn::config::ConfigError;
use kitchn::ingredient::{is_ingredient_file, parse_ingredient, Hooks};

const FULL: &str = r#"
    [package]
    name = "test.frag"
    version = "0.0.1"
    authors = ["Tester"]
    description = "A test fragment"

    [[templates]]
    target = "~/.config/test"
    content = "Hello {{ name }}"

    [hooks]
    reload = "echo reload"
"#;

const MINIMAL: &str = r#"
    [package]
    name = "minimal"
    # Missing version, authors, description
"#;

const LEGACY: &str = r#"
    [meta] # Should work as alias for [package]
    name = "legacy"
    version = "1.0"
    authors = ["Me"]
    description = "Legacy test"
"#;

#[test]
fn test_fragment_deserialization() {
    let pkg = parse_ingredient(FULL, "test.frag").unwrap();
    assert_eq!(pkg.meta.name, "test.frag");
    assert_eq!(pkg.meta.version, "0.0.1");
    assert_eq!(pkg.templates.len(), 1);
    assert_eq!(pkg.templates[0].target, "~/.config/test");
    assert_eq!(pkg.hooks.reload.unwrap(), "echo reload");
}

#[test]
fn test_ingredient_deserialization() {
    let pkg = parse_ingredient(FULL, "test.ing").unwrap();
    assert_eq!(pkg.meta.name, "test.frag");
    assert_eq!(pkg.meta.version, "0.0.1");
    assert_eq!(pkg.templates.len(), 1);
    assert_eq!(pkg.templates[0].target, "~/.config/test");
    assert_eq!(pkg.hooks.reload.unwrap(), "echo reload");
}

#[test]
fn fragment_test_fragment_missing_required_fields() {
    let res = parse_ingredient(MINIMAL, "minimal.frag");
    assert!(res.is_err());
}

#[test]
fn ingredient_test_fragment_missing_required_fields() {
    let res = parse_ingredient(MINIMAL, "minimal.ing");
    assert!(res.is_err());
}

#[test]
fn fragment_test_legacy_alias() {
    let pkg = parse_ingredient(LEGACY, "legacy.frag").unwrap();
    assert_eq!(pkg.meta.name, "legacy");
}

#[test]
fn ingredient_test_legacy_alias() {
    let pkg = parse_ingredient(LEGACY, "legacy.ing").unwrap();
    assert_eq!(pkg.meta.name, "legacy");
}

#[test]
fn ingredient_defaults_and_flags() {
    let pkg = parse_ingredient(LEGACY, "legacy.ing").unwrap();
    assert!(pkg.templates.is_empty());
    assert!(pkg.files.is_empty());
    assert!(pkg.hooks.reload.is_none());
    assert!(!pkg.meta.ignored);
    assert_eq!(pkg.meta.authors, vec!["Me".to_string()]);
    let text = "[meta]\nname = \"x\"\nversion = \"1\"\nauthors = []\ndescription = \"d\"\nignored = true\n\n[[files]]\ntarget = \"/tmp/a\"\ncontent = \"b\"\n";
    let pkg = parse_ingredient(text, "x.ing").unwrap();
    assert!(pkg.meta.ignored);
    assert_eq!(pkg.files.len(), 1);
    assert_eq!(pkg.files[0].content, "b");
    assert_eq!(pkg.entries().len(), 1);
    assert_eq!(pkg.meta.id(), "x");
}

#[test]
fn ingredient_errors() {
    match parse_ingredient("name = ", "bad.ing") {
        Err(ConfigError::Toml(path, _)) => assert_eq!(path, "bad.ing"),
        other => panic!("unexpected {:?}", other),
    }
    assert_eq!(
        parse_ingredient(MINIMAL, "m.ing").unwrap_err(),
        ConfigError::Field("meta.version".to_string())
    );
    let both = format!("{}\n[meta]\nname = \"y\"\n", MINIMAL);
    assert!(matches!(parse_ingredient(&both, "b.ing"), Err(ConfigError::Field(_))));
}

#[test]
fn ingredient_file_names() {
    assert!(is_ingredient_file("theme.ing"));
    assert!(is_ingredient_file(".ing"));
    assert!(!is_ingredient_file("theme.ingx"));
    assert!(!is_ingredient_file("ing"));
    assert!(Hooks::default().reload.is_none());
}
