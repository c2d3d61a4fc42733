//! The command line.

use limen::cli::{parse, CliCommand, HELP};

fn args(v: &[&str]) -> Vec<String> {
    v.iter().map(|s| s.to_string()).collect()
}

#[test]
fn firewall_runs_by_default() {
    assert!(matches!(parse(&args(&[])), CliCommand::Run(c) if c == "config.toml"));
    assert!(matches!(parse(&args(&["my.toml"])), CliCommand::Run(c) if c == "my.toml"));
}

#[test]
fn offline_commands_take_the_rest() {
    assert!(matches!(parse(&args(&["eval", "--llm", "d"])), CliCommand::Eval(a) if a == vec!["--llm", "d"]));
    assert!(matches!(parse(&args(&["learn"])), CliCommand::Learn(a) if a.is_empty()));
}

#[test]
fn tables_are_managed() {
    assert!(matches!(parse(&args(&["get", "health"])), CliCommand::GetHealth));
    assert!(matches!(parse(&args(&["get", "bypass"])), CliCommand::GetBypass));
    assert!(matches!(parse(&args(&["get", "blacklist"])), CliCommand::GetBlacklist));
    assert!(matches!(parse(&args(&["set", "bypass", "add", "/x/"])), CliCommand::AddBypass(p) if p == "/x/"));
    assert!(matches!(parse(&args(&["set", "bypass", "remove", "/x/"])), CliCommand::RemoveBypass(p) if p == "/x/"));
    assert!(matches!(parse(&args(&["get"])), CliCommand::Unknown));
    assert!(matches!(parse(&args(&["get", "other"])), CliCommand::Unknown));
    assert!(matches!(parse(&args(&["set", "bypass", "add"])), CliCommand::Unknown));
    assert!(matches!(parse(&args(&["set", "x", "add", "/"])), CliCommand::Unknown));
}

#[test]
fn help_names_the_commands() {
    assert!(matches!(parse(&args(&["--help"])), CliCommand::Help));
    for c in ["eval", "learn", "get health", "get bypass", "get blacklist", "set bypass add"] {
        assert!(HELP.contains(c), "{c}");
    }
}
