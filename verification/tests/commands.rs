use std::collections::HashSet;

use skim_integration::commands::{commands_of, get_available_commands, CommandType, COMMANDS};

/// Every command that the selection treats specially is on offer and is recognised.
#[test]
fn test_hardcoded_commands_in_commands_array() {
    let available_commands: HashSet<String> = get_available_commands().iter().cloned().collect();

    let hardcoded_commands = vec![
        "/context add",
        "/context rm",
        "/tools trust",
        "/tools untrust",
        "/agent set",
        "/agent delete",
        "/agent rename",
        "/agent create",
    ];

    for cmd in hardcoded_commands {
        assert!(
            available_commands.contains(cmd),
            "Command '{}' is used in select_command but not defined in COMMANDS array",
            cmd
        );
        assert!(
            CommandType::from_str(cmd).is_some(),
            "Command '{}' cannot be parsed into a CommandType",
            cmd
        );
    }
}

#[test]
fn available_commands_keep_the_order_of_the_table() {
    let expected: Vec<String> = COMMANDS.iter().map(|c| c.to_string()).collect();
    assert_eq!(get_available_commands(), expected);
}

#[test]
fn commands_are_recognised_by_kind() {
    assert_eq!(
        CommandType::from_str("/context add --force"),
        Some(CommandType::ContextAdd("/context add --force".to_string()))
    );
    assert_eq!(
        CommandType::from_str("/context rm"),
        Some(CommandType::ContextRemove("/context rm".to_string()))
    );
    assert_eq!(CommandType::from_str("/tools trust"), Some(CommandType::Tools("trust")));
    assert_eq!(CommandType::from_str("/tools untrust"), Some(CommandType::Tools("untrust")));
    assert_eq!(CommandType::from_str("/agent set"), Some(CommandType::Agent("set")));
    assert_eq!(CommandType::from_str("/agent delete"), Some(CommandType::Agent("delete")));
    assert_eq!(CommandType::from_str("/agent rename"), Some(CommandType::Agent("rename")));
    assert_eq!(CommandType::from_str("/agent create"), Some(CommandType::Agent("create")));
}

#[test]
fn other_commands_are_not_recognised() {
    assert_eq!(CommandType::from_str(""), None);
    assert_eq!(CommandType::from_str("/quit"), None);
    assert_eq!(CommandType::from_str("/context"), None);
    assert_eq!(CommandType::from_str("/tools trust now"), None);
    assert_eq!(CommandType::from_str("/agent list"), None);
}

#[test]
fn only_some_agent_commands_need_an_agent() {
    assert!(CommandType::Agent("set").needs_agent_selection());
    assert!(CommandType::Agent("delete").needs_agent_selection());
    assert!(CommandType::Agent("rename").needs_agent_selection());
    assert!(!CommandType::Agent("create").needs_agent_selection());
    assert!(!CommandType::Tools("trust").needs_agent_selection());
    assert!(!CommandType::ContextAdd("set".to_string()).needs_agent_selection());
}

#[test]
fn a_table_is_copied_in_order() {
    assert_eq!(commands_of(&["/b", "/a", "/b"]), vec!["/b", "/a", "/b"]);
    assert!(commands_of(&[]).is_empty());
}
