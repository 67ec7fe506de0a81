use shaken_commands::dispatch::{Action, CommandDispatch};
use shaken_commands::responses::{add_command, remove_command, set_command, Channel, Saved};
use shaken_commands::Command;

fn module() -> CommandDispatch {
    let mut dispatch = CommandDispatch::new();
    dispatch.add(Command::example("!add <command> <body...>").elevated().build().unwrap());
    dispatch.add(Command::example("!remove <command>").elevated().build().unwrap());
    dispatch.add(Command::example("!set <command> <body...>").elevated().build().unwrap());
    dispatch
}

/// The replies to `line` from a broadcaster or moderator (`privileged`) or anyone else.
fn run(dispatch: &CommandDispatch, channel: &mut Channel, line: &str, privileged: bool) -> Vec<String> {
    let mut out = vec![];
    for action in dispatch.call(line, privileged) {
        match action {
            Action::Help(i) => out.push(dispatch.commands()[i].help().to_string()),
            Action::Denied(_) => out.push("you cannot do that".to_string()),
            Action::Run(0, args) => out.push(add_command(
                channel,
                args.get("command").unwrap(),
                args.get("body"),
            )),
            Action::Run(1, args) => out.push(remove_command(channel, args.get("command").unwrap())),
            Action::Run(_, args) => out.push(set_command(
                channel,
                args.get("command").unwrap(),
                args.get("body"),
            )),
        }
    }
    out
}

#[test]
fn cannot_do_it() {
    let dispatch = module();
    let mut channel = Channel::new();
    for command in &["!add foo bar", "!set foo bar", "!remove foo"] {
        assert_eq!(run(&dispatch, &mut channel, command, false), vec!["you cannot do that"]);
    }
}

#[test]
fn add_broadcaster() {
    let mut channel = Channel::new();
    assert_eq!(
        run(&module(), &mut channel, "!add hello world", true),
        vec!["added 'hello' -> 'world'"]
    );
}

#[test]
fn add_broadcaster_twice() {
    let dispatch = module();
    let mut channel = Channel::new();
    assert_eq!(
        run(&dispatch, &mut channel, "!add hello world", true),
        vec!["added 'hello' -> 'world'"]
    );
    assert_eq!(
        run(&dispatch, &mut channel, "!add hello world", true),
        vec!["'hello' already exists"]
    );
}

#[test]
fn add_moderator() {
    let mut channel = Channel::new();
    assert_eq!(
        run(&module(), &mut channel, "!add hello world", true),
        vec!["added 'hello' -> 'world'"]
    );
}

#[test]
fn add_moderator_twice() {
    let dispatch = module();
    let mut channel = Channel::new();
    assert_eq!(
        run(&dispatch, &mut channel, "!add hello world", true),
        vec!["added 'hello' -> 'world'"]
    );
    assert_eq!(
        run(&dispatch, &mut channel, "!add hello world", true),
        vec!["'hello' already exists"]
    );
}

#[test]
fn set() {
    let mut channel = Channel::new();
    assert_eq!(
        run(&module(), &mut channel, "!set foo bar", true),
        vec!["added 'foo' -> 'bar'"]
    );
}

#[test]
fn set_twice() {
    let dispatch = module();
    let mut channel = Channel::new();
    assert_eq!(run(&dispatch, &mut channel, "!set foo bar", true), vec!["added 'foo' -> 'bar'"]);
    assert_eq!(run(&dispatch, &mut channel, "!set foo bar", true), vec!["updated 'foo' -> 'bar'"]);
    assert_eq!(run(&dispatch, &mut channel, "!set foo bar", true), vec!["updated 'foo' -> 'bar'"]);
}

#[test]
fn remove_and_body_rules() {
    let dispatch = module();
    let mut channel = Channel::new();
    assert_eq!(run(&dispatch, &mut channel, "!remove foo", true), vec!["'foo' does not exist"]);
    assert_eq!(run(&dispatch, &mut channel, "!set foo bar", true), vec!["added 'foo' -> 'bar'"]);
    assert_eq!(run(&dispatch, &mut channel, "!remove !foo", true), vec!["removed 'foo'"]);
    assert!(!channel.contains("foo"));
    assert_eq!(run(&dispatch, &mut channel, "!add x /ban", true), vec!["lol"]);
    assert_eq!(
        add_command(&mut channel, "x", Some("   ")),
        "try again. you provided an empty command body"
    );
    assert_eq!(add_command(&mut channel, "x", None), "try again. you provided an empty command body");
    assert_eq!(add_command(&mut channel, "x", Some("  hi  ")), "added 'x' -> 'hi'");
}

#[test]
fn stored_response_is_filled_in() {
    let saved = Saved {
        commands: vec![("greet".to_string(), "hello ${name}, welcome to ${channel}".to_string())],
    };
    let channel = Channel::from_saved(saved);
    assert_eq!(
        channel.respond("!greet now", "museun", "#test").unwrap().unwrap(),
        "hello museun, welcome to #test"
    );
    assert!(channel.respond("!other", "museun", "#test").is_none());
    assert!(channel.respond("greet", "museun", "#test").is_none());
    assert!(channel.respond("!", "museun", "#test").is_none());
}
