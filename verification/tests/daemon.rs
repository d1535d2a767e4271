use project_picker::cli::{command_for, kill_request, toggle_request, Command};
use project_picker::daemon::{toggle_action, toggle_requests, ToggleAction};
use project_picker::terminal::{terminal_args, terminal_program};

#[test]
fn test_toggle_decisions() {
    assert_eq!(toggle_action(true, true, true), ToggleAction::BeginHide);
    assert_eq!(toggle_action(false, false, false), ToggleAction::InitAndShow);
    assert_eq!(toggle_action(true, false, false), ToggleAction::OpenAndShow);
    assert_eq!(toggle_action(true, false, true), ToggleAction::OpenAndShow);
    assert_eq!(toggle_action(true, true, false), ToggleAction::Ignore);
}

#[test]
fn test_toggle_requests_counted_per_line() {
    assert_eq!(toggle_requests("toggle\n"), 1);
    assert_eq!(toggle_requests("toggle"), 1);
    assert_eq!(toggle_requests("  toggle \r\ntoggle\nkill\n"), 2);
    assert_eq!(toggle_requests("togglex\n"), 0);
    assert_eq!(toggle_requests(""), 0);
    assert_eq!(toggle_requests("\u{3000}toggle\u{a0}"), 1);
}

#[test]
fn test_client_messages_read_by_daemon() {
    assert_eq!(toggle_requests(&toggle_request()), 1);
    assert_eq!(toggle_requests(&kill_request()), 0);
    assert_eq!(toggle_request(), "toggle\n");
    assert_eq!(kill_request(), "kill\n");
}

#[test]
fn test_command_line() {
    let args = |a: &[&str]| a.iter().map(|s| s.to_string()).collect::<Vec<String>>();
    assert_eq!(command_for(&args(&["project-picker"])), Command::RunDaemon);
    assert_eq!(command_for(&args(&["project-picker", "--toggle"])), Command::Toggle);
    assert_eq!(command_for(&args(&["project-picker", "--toggle", "--kill"])), Command::Kill);
    assert_eq!(command_for(&args(&["project-picker", "-toggle"])), Command::RunDaemon);
}

#[test]
fn test_terminal_command() {
    assert_eq!(terminal_program(), "uwsm-app");
    assert_eq!(
        terminal_args("~/code/app", "/home/user"),
        vec!["--".to_string(), "ghostty".to_string(), "--working-directory=/home/user/code/app".to_string()]
    );
    assert_eq!(
        terminal_args("~", "/home/user"),
        vec!["--".to_string(), "ghostty".to_string(), "--working-directory=~".to_string()]
    );
    assert_eq!(
        terminal_args("/srv/x", "/home/user"),
        vec!["--".to_string(), "ghostty".to_string(), "--working-directory=/srv/x".to_string()]
    );
}
