//! History parsing, shell detection and command-output handling.

use quack::shell::{
    history_file_suffix, last_command_from_history, parse_history_line, pretty_name_of,
    rc_script_for, shell_name_of, CommandOutput,
};

#[test]
fn test_zsh_line() {
    let input = ": 167899:0;cargo run --release";
    let out = parse_history_line(input, "zsh");
    assert_eq!(out.as_deref(), Some("cargo run --release"));
}

#[test]
fn test_bash_simple() {
    let input = "ls -la";
    let out = parse_history_line(input, "bash");
    assert_eq!(out.as_deref(), Some("ls -la"));
}

#[test]
fn test_bash_timestamp() {
    let input = "#167899";
    let out = parse_history_line(input, "bash");
    assert_eq!(out, None);
}

#[test]
fn test_fish_with_prefix() {
    let input = "- cmd: cargo build";
    let out = parse_history_line(input, "fish");
    assert_eq!(out.as_deref(), Some("cargo build"));
}

#[test]
fn test_fish_clean() {
    let input = "cargo check";
    let out = parse_history_line(input, "fish");
    assert_eq!(out, None);
}

#[test]
fn zsh_plain_line_without_semicolon() {
    assert_eq!(parse_history_line("ls -la", "zsh").as_deref(), Some("ls -la"));
    assert_eq!(parse_history_line(": 167899:0", "zsh"), None);
}

#[test]
fn zsh_semicolon_with_empty_command() {
    assert_eq!(parse_history_line(": 167899:0;", "zsh"), None);
}

#[test]
fn fish_bare_cmd_prefix() {
    assert_eq!(parse_history_line("cmd: make test", "fish").as_deref(), Some("make test"));
    assert_eq!(parse_history_line("when: 1700000000", "fish"), None);
}

#[test]
fn empty_line_is_skipped_everywhere() {
    assert_eq!(parse_history_line("   ", "zsh"), None);
    assert_eq!(parse_history_line("", "bash"), None);
    assert_eq!(parse_history_line("\t", "fish"), None);
}

#[test]
fn unknown_shell_falls_back_to_bash_rules() {
    assert_eq!(parse_history_line("echo hi", "ksh").as_deref(), Some("echo hi"));
    assert_eq!(parse_history_line("#1700000000", "ksh"), None);
}

#[test]
fn last_command_scans_backwards() {
    let contents = "ls -la\ncargo build\ncargo test\n";
    let out = last_command_from_history(contents, "bash");
    assert_eq!(out.as_deref(), Some("cargo test"));
}

#[test]
fn last_command_skips_helper_entries() {
    let contents = "cargo build\nquack --cmd ls\nhistory -a\nfc -W\nduck\n";
    let out = last_command_from_history(contents, "bash");
    assert_eq!(out.as_deref(), Some("cargo build"));
}

#[test]
fn last_command_skips_timestamps_and_blanks() {
    let contents = "#1700000000\nmake install\n#1700000001\n\n";
    let out = last_command_from_history(contents, "bash");
    assert_eq!(out.as_deref(), Some("make install"));
}

#[test]
fn last_command_zsh_extended_format() {
    let contents = ": 100:0;ls\n: 101:0;cargo run --release\n";
    let out = last_command_from_history(contents, "zsh");
    assert_eq!(out.as_deref(), Some("cargo run --release"));
}

#[test]
fn last_command_empty_history() {
    assert_eq!(last_command_from_history("", "bash"), None);
    assert_eq!(last_command_from_history("\n\n", "bash"), None);
}

#[test]
fn shell_name_from_path() {
    assert_eq!(shell_name_of("/usr/bin/zsh"), "zsh");
    assert_eq!(shell_name_of("/bin/BASH"), "bash");
    assert_eq!(shell_name_of("fish"), "fish");
    assert_eq!(shell_name_of(""), "");
}

#[test]
fn history_file_per_shell() {
    assert_eq!(history_file_suffix("zsh"), ".zsh_history");
    assert_eq!(history_file_suffix("bash"), ".bash_history");
    assert_eq!(history_file_suffix("fish"), ".local/share/fish/fish_history");
    assert_eq!(history_file_suffix("ksh"), ".bash_history");
}

#[test]
fn pretty_name_from_os_release() {
    let contents = "NAME=\"Arch Linux\"\nPRETTY_NAME=\"Arch Linux\"\nID=arch\n";
    assert_eq!(pretty_name_of(contents).as_deref(), Some("Arch Linux"));
}

#[test]
fn pretty_name_absent() {
    assert_eq!(pretty_name_of("NAME=thing\nID=thing\n"), None);
    assert_eq!(pretty_name_of(""), None);
}

#[test]
fn pretty_name_unquoted_value() {
    assert_eq!(pretty_name_of("PRETTY_NAME=Debian\n").as_deref(), Some("Debian"));
}

#[test]
fn combined_output_joins_trimmed_streams() {
    let out = CommandOutput {
        stdout: "  hello \n".to_string(),
        stderr: "\nerror: no\n".to_string(),
        exit_code: 1,
    };
    assert_eq!(out.combined(), "hello\nerror: no");
}

#[test]
fn should_launch_on_failure_or_output() {
    let failing = CommandOutput {
        stdout: String::new(),
        stderr: String::new(),
        exit_code: 2,
    };
    assert!(failing.should_launch());
    let chatty = CommandOutput {
        stdout: "done".to_string(),
        stderr: String::new(),
        exit_code: 0,
    };
    assert!(chatty.should_launch());
    let silent = CommandOutput {
        stdout: String::new(),
        stderr: String::new(),
        exit_code: 0,
    };
    assert!(!silent.should_launch());
}

#[test]
fn rc_scripts_per_shell() {
    let (path, script) = rc_script_for("zsh").unwrap();
    assert_eq!(path, ".zshrc");
    assert!(script.contains("fc -W"));
    let (path, script) = rc_script_for("bash").unwrap();
    assert_eq!(path, ".bashrc");
    assert!(script.contains("history -a"));
    let (path, script) = rc_script_for("fish").unwrap();
    assert_eq!(path, ".config/fish/config.fish");
    assert!(script.contains("history save"));
    assert!(rc_script_for("ksh").is_none());
}
