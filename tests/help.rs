use shaken_commands::help::{format_commands, lookup};
use shaken_commands::Command;

fn commands() -> Vec<Command> {
    vec![
        Command::example("!help <command?>").build().unwrap(),
        Command::example("!hello").build().unwrap(),
        Command::example("!repeat <this...>").build().unwrap(),
    ]
}

#[test]
fn lists_commands_then_custom_ones() {
    let custom = vec!["greet".to_string(), "bye".to_string()];
    assert_eq!(
        format_commands(&commands(), &custom),
        "!help, !hello, !repeat, !greet, !bye"
    );
    assert_eq!(format_commands(&vec![], &vec!["only".to_string()]), "!only");
    assert_eq!(format_commands(&vec![], &vec![]), "");
}

#[test]
fn looks_up_help_text() {
    let custom = vec![("greet".to_string(), "hello ${user}".to_string())];
    assert_eq!(lookup(&commands(), &custom, "repeat"), "!repeat <this...>");
    assert_eq!(lookup(&commands(), &custom, "!hello"), "!hello");
    assert_eq!(lookup(&commands(), &custom, "greet"), "hello ${user}");
    assert_eq!(
        lookup(&commands(), &custom, "!nope"),
        "I don't know what '!nope' is"
    );
}
