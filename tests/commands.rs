use shaken_commands::{ArgKind, Command, Error, ExtractResult};
use ExtractResult::{Found, NoMatch, Required};

const GOOD: [&str; 7] = [
    "!foo <req> <opt?>",
    "!foo <req> <opt?> <opt2?>",
    "!foo <req> <opt?> <flex...>",
    "!foo <req> <flex...>",
    "!foo <flex...>",
    "!foo <opt?> <flex...>",
    "!foo <opt?> <opt2?> <flex...>",
];

#[test]
fn parse_good() {
    for test in GOOD {
        Command::example(test).build().unwrap();
    }
}

#[test]
fn display() {
    for test in GOOD {
        assert_eq!(Command::example(test).build().unwrap().to_string(), test);
    }
}

#[test]
fn parse_failure() {
    let tests = vec![
        "!foo <opt?> <req>",
        "!foo <flex...> <opt?>",
        "!foo <flex...> <req>",
        "!foo <req> <opt?> <req2>",
        "!foo <dup> <opt?> <dup>",
        "!foo <flex1...> <flex2...>",
        "!foo <opt?> <flex1...> <flex2...>",
        "!foo <req> <opt?> <flex1...> <flex2...>",
    ];

    for test in tests {
        Command::example(test).build().unwrap_err();
    }
}

#[test]
fn matched() {
    let cmd = Command::example("!hello <name> <other?> <rest...>")
        .build()
        .unwrap();

    for input in &["!hello world this is a test", "!hello world"] {
        assert!(matches!(cmd.extract(input), Found(map) if !map.is_empty()));
    }

    assert!(matches!(cmd.extract("!hello"), Required));

    for input in &["!testing world this is a test", "!", ""] {
        assert!(matches!(cmd.extract(*input), NoMatch))
    }
}

#[test]
fn extract() {
    let cmd = Command::example("!hello <name> <other>").build().unwrap();
    let map = match cmd.extract("!hello world testing this") {
        Found(map) => map,
        _ => panic!(),
    };
    assert_eq!(map.get("name"), Some("world"));
    assert_eq!(map.get("other"), Some("testing"));

    let map = match cmd.extract("!hello world testing") {
        Found(map) => map,
        _ => panic!(),
    };
    assert_eq!(map.get("name"), Some("world"));
    assert_eq!(map.get("other"), Some("testing"));

    let cmd = Command::example("!hello <name> <other> <tail...>")
        .build()
        .unwrap();

    let map = match cmd.extract("!hello world testing this is the tail") {
        Found(map) => map,
        _ => panic!(),
    };
    assert_eq!(map.get("name"), Some("world"));
    assert_eq!(map.get("other"), Some("testing"));
    assert_eq!(map.get("tail"), Some("this is the tail"));

    let map = match cmd.extract("!hello world testing") {
        Found(map) => map,
        _ => panic!(),
    };
    assert_eq!(map.get("name"), Some("world"));
    assert_eq!(map.get("other"), Some("testing"));
}

#[test]
fn built_keys_follow_declaration() {
    let cmd = Command::example("!foo <req> <opt?> <flex...>").build().unwrap();
    assert_eq!(cmd.name(), "foo");
    assert_eq!(cmd.command(), "foo");
    assert_eq!(cmd.help(), "!foo <req> <opt?> <flex...>");
    assert_eq!(cmd.keys(), vec!["req".to_string(), "opt".to_string(), "flex".to_string()]);
    assert_eq!(cmd.kinds(), vec![ArgKind::Required, ArgKind::Optional, ArgKind::Flexible]);
}

#[test]
fn words_outside_brackets_are_ignored() {
    let cmd = Command::example("!say something <what...>").build().unwrap();
    assert_eq!(cmd.keys(), vec!["what".to_string()]);
}

#[test]
fn no_command() {
    assert!(matches!(Command::example("").build(), Err(Error::NoCommand)));
    assert!(matches!(Command::example("!").build(), Err(Error::NoCommand)));
    assert!(matches!(Command::example("! foo").build(), Err(Error::NoCommand)));
}

#[test]
fn duplicate_key() {
    match Command::example("!foo <dup> <opt?> <dup>").build() {
        Err(Error::DuplicateKey(key)) => assert_eq!(key, "dup"),
        other => panic!("{:?}", other),
    }
}

#[test]
fn invalid_characters() {
    assert!(matches!(
        Command::example("!foo <a-b>").build(),
        Err(Error::InvalidCharacters)
    ));
    assert!(matches!(
        Command::example("!foo <>").build(),
        Err(Error::InvalidCharacters)
    ));
    assert!(matches!(
        Command::example("!foo <?>").build(),
        Err(Error::InvalidCharacters)
    ));
}

#[test]
fn ordering_errors() {
    assert!(matches!(
        Command::example("!foo <opt?> <req>").build(),
        Err(Error::RequiredInTail)
    ));
    assert!(matches!(
        Command::example("!foo <flex...> <req>").build(),
        Err(Error::RequiredInTail)
    ));
    assert!(matches!(
        Command::example("!foo <flex...> <opt?>").build(),
        Err(Error::OptionalAfterFlex)
    ));
    assert!(matches!(
        Command::example("!foo <flex1...> <flex2...>").build(),
        Err(Error::MultipleFlexible)
    ));
}

#[test]
fn unicode_keys_are_alphanumeric() {
    let cmd = Command::example("!foo <größe>").build().unwrap();
    assert_eq!(cmd.keys(), vec!["größe".to_string()]);
}

#[test]
fn required_optional_flexible_binding() {
    let cmd = Command::example("!hello <name> <other?> <rest...>").build().unwrap();
    let map = match cmd.extract("!hello world this is a test") {
        ExtractResult::Found(map) => map,
        other => panic!("{:?}", other),
    };
    assert_eq!(map.len(), 3);
    assert_eq!(map.get("name"), Some("world"));
    assert_eq!(map.get("other"), Some("this"));
    assert_eq!(map.get("rest"), Some("is a test"));
}

#[test]
fn single_word_binds_first_slot_only() {
    let cmd = Command::example("!hello <name> <other?> <rest...>").build().unwrap();
    let map = match cmd.extract("!hello world") {
        ExtractResult::Found(map) => map,
        other => panic!("{:?}", other),
    };
    assert_eq!(map.len(), 1);
    assert_eq!(map.get("name"), Some("world"));
    assert_eq!(map.get("other"), None);
    assert_eq!(map.get("rest"), None);
}

#[test]
fn empty_remainder_is_missing_required() {
    let cmd = Command::example("!hello <name> <other?> <rest...>").build().unwrap();
    assert!(matches!(cmd.extract("!hello"), ExtractResult::Required));
    assert!(matches!(cmd.extract("!hello   "), ExtractResult::Required));
}

#[test]
fn no_required_slot_never_missing() {
    let cmd = Command::example("!maybe <something?>").build().unwrap();
    match cmd.extract("!maybe") {
        ExtractResult::Found(map) => assert!(map.is_empty()),
        other => panic!("{:?}", other),
    }
    let cmd = Command::example("!shutdown").build().unwrap();
    assert!(matches!(cmd.extract("!shutdown"), ExtractResult::Found(_)));
}

#[test]
fn other_names_do_not_match() {
    let cmd = Command::example("!hello <name>").build().unwrap();
    assert!(matches!(cmd.extract(""), ExtractResult::NoMatch));
    assert!(matches!(cmd.extract("!"), ExtractResult::NoMatch));
    assert!(matches!(cmd.extract("!hi there"), ExtractResult::NoMatch));
    assert!(matches!(cmd.extract("!!hello there"), ExtractResult::NoMatch));
    assert!(matches!(cmd.extract("hello there"), ExtractResult::Found(_)));
}

#[test]
fn name_is_a_plain_prefix() {
    let cmd = Command::example("!go <where?>").build().unwrap();
    match cmd.extract("!gopher") {
        ExtractResult::Found(map) => assert_eq!(map.get("where"), Some("pher")),
        other => panic!("{:?}", other),
    }
}

#[test]
fn surplus_text_is_dropped_and_double_space_binds_empty() {
    let cmd = Command::example("!pair <a> <b>").build().unwrap();
    match cmd.extract("!pair x y z") {
        ExtractResult::Found(map) => {
            assert_eq!(map.len(), 2);
            assert_eq!(map.get("b"), Some("y"));
        }
        other => panic!("{:?}", other),
    }
    match cmd.extract("!pair x  y") {
        ExtractResult::Found(map) => assert_eq!(map.get("b"), Some("")),
        other => panic!("{:?}", other),
    }
}

#[test]
fn commands_compare_by_help_text() {
    let a = Command::example("!foo <a> <b?>").build().unwrap();
    let b = Command::example("!foo <x> <y?>").build().unwrap();
    let c = Command::example("!foo <a> <b?>").build().unwrap();
    assert!(a != b);
    assert!(a == c);
}

#[test]
fn elevated_flag_is_kept() {
    let cmd = Command::example("!shutdown").elevated().build().unwrap();
    assert!(cmd.is_elevated());
    assert!(!Command::example("!hello").build().unwrap().is_elevated());
}

#[test]
fn error_messages() {
    match Command::example("!foo <dup> <dup>").build() {
        Err(e) => assert_eq!(e.to_string(), "duplicate key found: dup"),
        Ok(_) => panic!(),
    }
    assert_eq!(Error::NoCommand.to_string(), "a command must be provided");
    assert_eq!(
        Error::MultipleFlexible.to_string(),
        "only a single flexible argument can exist"
    );
}
