use ask::prompt::{
    build_command_prompt, build_explain_prompt, build_fix_prompt, build_refine_prompt,
    os_context_label, parse_linux_distro,
};

const OS: &str = "linux (Ubuntu 22.04.1 LTS)";
const SHELL: &str = "/bin/bash";
const CWD: &str = "/home/user";

#[test]
fn test_parse_linux_distro() {
    let double_quoted = "NAME=\"Ubuntu\"\nVERSION=\"22.04.1 LTS\"\nPRETTY_NAME=\"Ubuntu 22.04.1 LTS\"\nID=ubuntu\n";
    assert_eq!(
        parse_linux_distro(double_quoted),
        Some("Ubuntu 22.04.1 LTS".to_string())
    );

    let single_quoted = "PRETTY_NAME='Arch Linux'\nID=arch\n";
    assert_eq!(
        parse_linux_distro(single_quoted),
        Some("Arch Linux".to_string())
    );

    let unquoted = "PRETTY_NAME=Fedora Linux\n";
    assert_eq!(
        parse_linux_distro(unquoted),
        Some("Fedora Linux".to_string())
    );

    let interior_quotes = "PRETTY_NAME=\"Distro 'Special' Edition\"\n";
    assert_eq!(
        parse_linux_distro(interior_quotes),
        Some("Distro 'Special' Edition".to_string())
    );

    let no_pretty = "NAME=\"Custom\"\nID=custom\n";
    assert_eq!(parse_linux_distro(no_pretty), None);
}

#[test]
fn parse_linux_distro_skips_blank_values() {
    let content = "PRETTY_NAME=\"  \"\r\nPRETTY_NAME= \"Debian GNU/Linux 12\" \r\n";
    assert_eq!(
        parse_linux_distro(content),
        Some("Debian GNU/Linux 12".to_string())
    );
    assert_eq!(parse_linux_distro(""), None);
    assert_eq!(parse_linux_distro(" PRETTY_NAME=x\n"), None);
}

#[test]
fn os_context_label_with_and_without_distro() {
    assert_eq!(os_context_label("linux", "Arch Linux"), "linux (Arch Linux)");
    assert_eq!(os_context_label("macos", ""), "macos");
}

#[test]
fn test_build_command_prompt() {
    let prompt = build_command_prompt(OS, SHELL, CWD, "list all docker containers");
    assert!(prompt.contains("Context:"));
    assert!(prompt.contains("Operating System:"));
    assert!(prompt.contains("Shell:"));
    assert!(prompt.contains("Current Directory:"));
    assert!(prompt.contains("Query: list all docker containers"));
    assert!(prompt.contains("Do not include any markdown formatting"));
}

#[test]
fn build_command_prompt_exact_text() {
    let prompt = build_command_prompt("linux", "zsh", "/tmp", "q");
    assert_eq!(
        prompt,
        "Context:\n- Operating System: linux\n- Shell: zsh\n- Current Directory: /tmp\n\n\
         Task: Provide the most common command line command for this query. \
         If there are other very distinct or necessary alternative ways, you may list them as well, each on a new line starting with 'Command: '. \
         Otherwise, provide just the single raw command.\n\n\
         Ensure the command is compatible with the specified OS and Shell. \
         Do not include any markdown formatting, backticks, or explanations. \
         Query: q"
    );
}

#[test]
fn test_build_refine_prompt() {
    let prompt = build_refine_prompt(OS, SHELL, CWD, "docker ps", "show stopped containers too");
    assert!(prompt.contains("Previous Command: docker ps"));
    assert!(prompt.contains("Instruction: show stopped containers too"));
    assert!(prompt.contains("Context:"));
}

#[test]
fn test_build_explain_prompt() {
    let prompt = build_explain_prompt("linux", "tar -czvf archive.tar.gz /path");
    assert!(prompt.contains("Operating System:"));
    assert!(prompt.contains("Command: tar -czvf archive.tar.gz /path"));
    assert!(prompt.contains("high-signal technical breakdown"));
}

#[test]
fn test_build_fix_prompt() {
    let prompt = build_fix_prompt(OS, SHELL, CWD, "bash: foo: command not found");
    assert!(prompt.contains("Error Output:\nbash: foo: command not found"));
    assert!(prompt.contains("Explanation: [Your short explanation]"));
    assert!(prompt.contains("Command: [The raw command]"));
}
