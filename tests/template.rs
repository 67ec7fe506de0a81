use shaken_commands::template::{Environment, Error, ParsedTemplate, SimpleTemplate, Template};

#[test]
fn finds_keys_in_order() {
    let keys = ParsedTemplate::find_keys("hello ${name}, it is ${time}.").unwrap();
    assert_eq!(keys, vec!["name".to_string(), "time".to_string()]);
    assert!(ParsedTemplate::find_keys("no placeholders here").unwrap().is_empty());
    assert!(ParsedTemplate::find_keys("a lone $ and { and }").unwrap().is_empty());
}

#[test]
fn single_character_key() {
    let keys = ParsedTemplate::find_keys("${a}").unwrap();
    assert_eq!(keys, vec!["a".to_string()]);
}

#[test]
fn template_errors() {
    assert!(matches!(
        ParsedTemplate::find_keys("${a{b}}"),
        Err(Error::NestedTemplates)
    ));
    assert!(matches!(
        ParsedTemplate::find_keys("hello ${name"),
        Err(Error::NonTerminated)
    ));
    assert!(matches!(
        ParsedTemplate::find_keys("${a ${b}"),
        Err(Error::NonTerminated)
    ));
    assert!(matches!(
        ParsedTemplate::find_keys("empty ${}"),
        Err(Error::EmptyTemplate)
    ));
}

#[test]
fn apply_fills_known_keys() {
    let env = Environment::new()
        .insert("name", &"museun")
        .insert("count", &"3".to_string());
    let parsed = ParsedTemplate::parse("hi ${name}, ${name} has ${count} and ${other}").unwrap();
    assert_eq!(parsed.apply(&env), "hi museun, museun has 3 and ${other}");
}

#[test]
fn later_binding_wins() {
    let env = Environment::new()
        .with("name", "first".to_string())
        .with("name", "second".to_string());
    assert_eq!(env.resolve(&"name".to_string()), Some("second".to_string()));
    assert_eq!(env.resolve(&"missing".to_string()), None);
}

#[test]
fn simple_template_through_trait() {
    let t = SimpleTemplate::new("greet", "hello ${user}");
    let env = Environment::new().insert("user", &"test_user");
    assert_eq!(t.name(), "greet");
    assert_eq!(t.body(), "hello ${user}");
    assert_eq!(t.apply(&env).unwrap(), "hello test_user");
    let bad = SimpleTemplate::new("bad", "hello ${user");
    assert!(matches!(bad.apply(&env), Err(Error::NonTerminated)));
}

#[test]
fn custom_error_keeps_message() {
    let e = Error::custom("boom");
    assert!(matches!(&e, Error::Custom(m) if m == "boom"));
    assert_eq!(e.to_string(), "boom");
    assert_eq!(Error::EmptyTemplate.to_string(), "empty templates are not allowed");
}
