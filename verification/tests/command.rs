use watchbind::command::check_stderr;
use watchbind::command::Command;
use watchbind::command::Error;
use watchbind::command::RunReport;
use watchbind::command::LINES_ENV_VAR;

#[test]
fn test_new_strips_background_marker() {
    let cmd = Command::new("notify-send done &".to_string());
    assert_eq!(cmd.command, "notify-send done");
    assert!(!cmd.is_blocking());
}

#[test]
fn test_new_keeps_foreground_text() {
    let cmd = Command::new("ls -la".to_string());
    assert_eq!(cmd.command, "ls -la");
    assert!(cmd.is_blocking());
}

#[test]
fn test_new_marker_needs_exact_space_ampersand_suffix() {
    let cmd = Command::new("ls&".to_string());
    assert_eq!(cmd.command, "ls&");
    assert!(cmd.is_blocking());

    let cmd = Command::new("ls & ".to_string());
    assert_eq!(cmd.command, "ls & ");
    assert!(cmd.is_blocking());
}

#[test]
fn test_new_empty_text() {
    let cmd = Command::new(String::new());
    assert_eq!(cmd.command, "");
    assert!(cmd.is_blocking());
}

#[test]
fn test_shell_cmd_builds_sh_invocation() {
    let cmd = Command::new("echo hi".to_string());
    let inv = cmd.shell_cmd(None);
    assert_eq!(inv.program, "sh");
    assert_eq!(inv.args, vec!["-c".to_string(), "echo hi".to_string()]);
    assert_eq!(inv.lines_env, None);
    assert_eq!(LINES_ENV_VAR, "LINES");
}

#[test]
fn test_shell_cmd_carries_selected_lines() {
    let cmd = Command::new("xargs open".to_string());
    let inv = cmd.shell_cmd(Some("a\nb".to_string()));
    assert_eq!(inv.lines_env, Some("a\nb".to_string()));
    assert_eq!(inv.args[1], "xargs open");
}

#[test]
fn test_execute_blocking_success() {
    let cmd = Command::new("true".to_string());
    let r = cmd.execute(RunReport::Completed { success: true, stderr: String::new() });
    assert!(r.is_ok());
}

#[test]
fn test_execute_blocking_failure_carries_stderr() {
    let cmd = Command::new("false".to_string());
    let r = cmd.execute(RunReport::Completed { success: false, stderr: "oops".to_string() });
    match r {
        Err(Error::Execution(msg)) => assert_eq!(msg, "oops"),
        _ => panic!("expected an execution error"),
    }
}

#[test]
fn test_execute_nonblocking_launch() {
    let cmd = Command::new("sleep 10 &".to_string());
    let r = cmd.execute(RunReport::Launched);
    assert!(r.is_ok());
}

#[test]
fn test_execute_spawn_failure() {
    let cmd = Command::new("whatever".to_string());
    let r = cmd.execute(RunReport::SpawnFailed("no shell".to_string()));
    match r {
        Err(Error::Spawn(msg)) => assert_eq!(msg, "no shell"),
        _ => panic!("expected a spawn error"),
    }
}

#[test]
fn test_check_stderr_only_status_governs() {
    assert!(check_stderr(true, "noise on stderr".to_string()).is_ok());
    match check_stderr(false, "real failure".to_string()) {
        Err(Error::Execution(msg)) => assert_eq!(msg, "real failure"),
        _ => panic!("expected an execution error"),
    }
}
