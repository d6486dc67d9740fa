use ask::ui::{
    clipboard_tools, command_actions, command_choice, extract_commands, key_source,
    ClipboardTool, CommandActions, CommandChoice, KeySource,
};

#[test]
fn test_extract_commands_with_command_prefix() {
    let response = "Here are options:\nCommand: git status\nCommand: git status -s";
    let commands = extract_commands(response);
    assert_eq!(commands, vec!["git status", "git status -s"]);
}

#[test]
fn test_extract_commands_case_insensitive_prefix() {
    let response = "COMMAND: docker ps -a\ncommand:   podman ps  ";
    let commands = extract_commands(response);
    assert_eq!(commands, vec!["docker ps -a", "podman ps"]);
}

#[test]
fn test_extract_commands_fallback_to_last_line() {
    let response = "I suggest using this command:\n\nls -la /tmp\n\n";
    let commands = extract_commands(response);
    assert_eq!(commands, vec!["ls -la /tmp"]);
}

#[test]
fn test_extract_commands_empty_response() {
    assert_eq!(extract_commands(""), Vec::<String>::new());
    assert_eq!(extract_commands("   \n\n  \t  "), Vec::<String>::new());
}

#[test]
fn test_extract_commands_ignores_empty_command_line() {
    let response = "Command:\nCommand:  \nCommand: echo hello";
    let commands = extract_commands(response);
    assert_eq!(commands, vec!["echo hello"]);
}

#[test]
fn extract_commands_mixed_case_and_crlf() {
    let response = "Explanation: wrong flag\r\nCoMmAnD: ls -l\r\n";
    assert_eq!(extract_commands(response), vec!["ls -l"]);
    // A marker that is not at the start of the line does not count.
    let response = "Use this Command: x\n  last one  ";
    assert_eq!(extract_commands(response), vec!["last one"]);
}

#[test]
fn key_source_prefers_environment() {
    assert_eq!(key_source(Some("sk-env"), "stored"), KeySource::Environment);
    assert_eq!(key_source(Some(""), "stored"), KeySource::ConfigFile);
    assert_eq!(key_source(None, "stored"), KeySource::ConfigFile);
    assert_eq!(key_source(None, ""), KeySource::Unset);
    assert_eq!(key_source(Some(""), ""), KeySource::Unset);
}

#[test]
fn clipboard_tools_order() {
    assert_eq!(
        clipboard_tools(true, true),
        vec![ClipboardTool::WlCopy, ClipboardTool::Xclip, ClipboardTool::Arboard]
    );
    assert_eq!(clipboard_tools(true, false), vec![ClipboardTool::Xclip, ClipboardTool::Arboard]);
    assert_eq!(clipboard_tools(false, true), vec![ClipboardTool::Arboard]);
}

#[test]
fn command_choice_by_count() {
    assert_eq!(command_choice(&vec![]), CommandChoice::Nothing);
    assert_eq!(command_choice(&vec!["ls".to_string()]), CommandChoice::Only("ls".to_string()));
    assert_eq!(
        command_choice(&vec!["ls".to_string(), "ls -a".to_string()]),
        CommandChoice::Choose
    );
}

#[test]
fn command_actions_for_chosen_command() {
    assert_eq!(
        command_actions("ls", true, false),
        CommandActions { save: true, copy: true, confirm_run: false }
    );
    assert_eq!(
        command_actions("ls", false, true),
        CommandActions { save: true, copy: false, confirm_run: true }
    );
    assert_eq!(
        command_actions("", true, true),
        CommandActions { save: false, copy: false, confirm_run: false }
    );
}
