//! Tests of the help-text builder.

use wallet::{Command, CommandHelp, Usage};

#[test]
fn new_usage_has_header_and_no_commands() {
    let u = Usage::new();
    assert_eq!(u.program_name, "wallet");
    assert_eq!(u.version, "1.0.0");
    assert_eq!(
        u.description,
        "A secure command-line key-value store and password manager"
    );
    assert!(u.commands.is_empty());
}

#[test]
fn default_usage_lists_the_six_flags() {
    let u = Usage::default();
    let flags: Vec<&str> = u.commands.iter().map(|c| c.flag.as_str()).collect();
    assert_eq!(
        flags,
        vec![
            "-a, --add",
            "-s, --show",
            "-c, --copy",
            "-l, --list",
            "-r, --remove",
            "-h, --help"
        ]
    );
    assert_eq!(u.commands[0].usage, "<KEY> <VALUE>");
    assert_eq!(u.commands[0].examples.len(), 2);
    assert_eq!(u.commands[3].usage, "");
}

#[test]
fn add_command_appends() {
    let mut u = Usage::new();
    u.add_command(CommandHelp {
        flag: "-x".to_string(),
        usage: "<X>".to_string(),
        description: "does x".to_string(),
        examples: vec![],
    });
    assert_eq!(u.commands.len(), 1);
    assert_eq!(u.commands[0].flag, "-x");
}

#[test]
fn from_wraps_messages_as_descriptions() {
    let u = Usage::from(vec!["one".to_string(), "two".to_string()]);
    assert_eq!(u.commands.len(), 2);
    assert_eq!(u.commands[0].description, "one");
    assert_eq!(u.commands[1].description, "two");
    assert_eq!(u.commands[0].flag, "");
    assert!(u.commands[1].examples.is_empty());
}

#[test]
fn command_keeps_its_arguments() {
    let c = Command::new(vec!["wallet".to_string(), "-l".to_string()]);
    assert_eq!(c.args, vec!["wallet", "-l"]);
}
