use shaken_commands::dispatch::{Action, CommandDispatch};
use shaken_commands::Command;

fn make_commands() -> CommandDispatch {
    let hello = Command::example("!hello").build().unwrap();
    let repeat_this = Command::example("!repeat <this...>").build().unwrap();
    let maybe = Command::example("!maybe <something?>").build().unwrap();
    let elevated = Command::example("!shutdown").elevated().build().unwrap();

    let mut dispatch = CommandDispatch::new();
    dispatch.add(hello);
    dispatch.add(repeat_this);
    dispatch.add(maybe);
    dispatch.add(elevated);
    dispatch
}

/// Runs the handlers of the commands above for what the dispatcher decided.
fn respond(dispatch: &CommandDispatch, line: &str, privileged: bool) -> Vec<String> {
    let mut out = vec![];
    for action in dispatch.call(line, privileged) {
        match action {
            Action::Help(i) => out.push(dispatch.commands()[i].help().to_string()),
            Action::Denied(_) => out.push("you cannot do that".to_string()),
            Action::Run(0, _) => out.push(format!("hello {}", "test_user")),
            Action::Run(1, args) => out.push(format!("ok: {}", args.get("this").unwrap())),
            Action::Run(2, args) => match args.get("something") {
                Some(data) => out.push(format!("just: {}", data)),
                None => out.push("nothing".to_string()),
            },
            Action::Run(_, _) => out.push("shutting down".to_string()),
        }
    }
    out
}

fn command_thing_cases() {
    let commands = make_commands();
    assert_eq!(respond(&commands, "!hello", false), vec!["hello test_user"]);
    assert_eq!(respond(&commands, "!hello world", false), vec!["hello test_user"]);
    assert_eq!(respond(&commands, "!repeat some message", false), vec!["ok: some message"]);
    assert_eq!(respond(&commands, "!repeat something", false), vec!["ok: something"]);
    assert_eq!(respond(&commands, "!maybe monad", false), vec!["just: monad"]);
    assert_eq!(respond(&commands, "!maybe", false), vec!["nothing"]);
    assert_eq!(respond(&commands, "!shutdown", true), vec!["shutting down"]);
    assert_eq!(respond(&commands, "!shutdown", false), vec!["you cannot do that"]);
}

#[test]
fn command_dispatch_command_thing() {
    command_thing_cases();
}

#[test]
fn commands_command_thing() {
    command_thing_cases();
}

#[test]
fn help_is_shown_and_search_goes_on() {
    let mut dispatch = CommandDispatch::new();
    dispatch.add(Command::example("!add <key> <value...>").build().unwrap());
    dispatch.add(Command::example("!add").build().unwrap());
    let actions = dispatch.call("!add", false);
    assert_eq!(actions.len(), 2);
    assert!(matches!(actions[0], Action::Help(0)));
    assert!(matches!(&actions[1], Action::Run(1, args) if args.is_empty()));
}

#[test]
fn unknown_line_does_nothing() {
    let dispatch = make_commands();
    assert!(dispatch.call("just chatting", false).is_empty());
    assert!(dispatch.call("!unknown", true).is_empty());
}
