use shaken_commands::cmd::Cmd;
use shaken_commands::format::{relative_time, timestamp, Elapsed, FormatTime};

#[test]
fn sixty_one_seconds_in_words() {
    assert_eq!(relative_time(61), "1 minute and 1 second");
    assert_eq!(Elapsed { secs: 61 }.relative_time(), "1 minute and 1 second");
}

#[test]
fn words_for_several_units() {
    assert_eq!(relative_time(0), "");
    assert_eq!(relative_time(1), "1 second");
    assert_eq!(relative_time(120), "2 minutes");
    assert_eq!(relative_time(86400 + 2 * 3600 + 3), "1 day, 2 hours and 3 seconds");
    assert_eq!(
        relative_time(2 * 86400 + 3600 + 60 + 59),
        "2 days, 1 hour, 1 minute and 59 seconds"
    );
}

#[test]
fn stamps() {
    assert_eq!(timestamp(0), "00:00");
    assert_eq!(timestamp(61), "01:01");
    assert_eq!(timestamp(3600 + 2 * 60 + 3), "01:02:03");
    assert_eq!(Elapsed { secs: 100 * 3600 }.timestamp(), "100:00:00");
}

#[test]
fn cmd_parts() {
    let c = Cmd::parse("!add hello world and more").unwrap();
    assert_eq!(c.head, "add");
    assert_eq!(c.arg.as_deref(), Some("hello"));
    assert_eq!(c.body.as_deref(), Some("world and more"));

    let c = Cmd::parse("!remove !foo").unwrap();
    assert_eq!(c.head, "remove");
    assert_eq!(c.arg.as_deref(), Some("foo"));
    assert_eq!(c.body, None);

    let c = Cmd::parse("!set ! bar").unwrap();
    assert_eq!(c.arg, None);
    assert_eq!(c.body.as_deref(), Some("bar"));

    let c = Cmd::parse("!uptime").unwrap();
    assert_eq!(c.head, "uptime");
    assert_eq!(c.arg, None);

    assert!(Cmd::parse("!").is_none());
    assert!(Cmd::parse("").is_none());
    assert!(Cmd::parse("hello there").is_none());
}
