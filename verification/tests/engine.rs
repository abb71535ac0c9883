use watchbind::command::Command;
use watchbind::command::Error;
use watchbind::engine::capture_from_events;
use watchbind::engine::capture_step;
use watchbind::engine::observe_poll;
use watchbind::engine::PollEvent;
use watchbind::engine::PollStep;
use watchbind::engine::RunOutcome;

fn exit_ok(stdout: &[u8]) -> PollEvent {
    PollEvent::Exited { success: true, stdout: stdout.to_vec(), stderr: String::new() }
}

#[test]
fn test_executing_echo_command() {
    // the process spawned for `echo "hello world"` exits cleanly with its text
    let cmd = Command::new(r#"echo "hello world""#.to_string());
    assert!(cmd.is_blocking());
    let events = vec![PollEvent::Running, exit_ok(b"hello world\n")];
    let output = capture_from_events(events);
    assert_eq!(output, Some(Ok("hello world\n".to_string())));
}

#[test]
fn test_multiline_output() {
    let cmd = Command::new(r#"printf "one\ntwo\n""#.to_string());
    assert!(cmd.is_blocking());
    let events = vec![exit_ok(b"one\ntwo\n")];
    let output = capture_from_events(events);
    assert_eq!(output, Some(Ok("one\ntwo\n".to_string())));
}

#[test]
fn test_reload_kills_and_restarts() {
    // a reload before any exit restarts; only the second attempt's output returns
    match capture_step(PollEvent::Reload) {
        PollStep::Restart => {}
        _ => panic!("a reload must kill and restart the attempt"),
    }
    let events = vec![
        PollEvent::Running,
        PollEvent::Reload,
        PollEvent::Running,
        exit_ok(b"second attempt\n"),
    ];
    let output = capture_from_events(events);
    assert_eq!(output, Some(Ok("second attempt\n".to_string())));
}

#[test]
fn test_nonzero_exit_reports_stderr() {
    let events = vec![PollEvent::Exited {
        success: false,
        stdout: b"partial stdout".to_vec(),
        stderr: "command failed".to_string(),
    }];
    match capture_from_events(events) {
        Some(Err(Error::Execution(msg))) => assert_eq!(msg, "command failed"),
        _ => panic!("expected an execution error carrying the stderr text"),
    }
}

#[test]
fn test_invalid_utf8_output_is_a_decode_error() {
    let events = vec![PollEvent::Exited {
        success: true,
        stdout: vec![0xff, 0xfe, 0xfd],
        stderr: String::new(),
    }];
    match capture_from_events(events) {
        Some(Err(Error::Decode)) => {}
        _ => panic!("expected a decode error"),
    }
}

#[test]
fn test_no_exit_means_no_result() {
    let events = vec![PollEvent::Running, PollEvent::Reload, PollEvent::Running];
    assert!(capture_from_events(events).is_none());
}

#[test]
fn test_observe_poll_classifies_events() {
    match observe_poll(PollEvent::Reload) {
        Some(RunOutcome::Cancelled) => {}
        _ => panic!("a reload cancels the attempt"),
    }
    assert!(observe_poll(PollEvent::Running).is_none());
    match observe_poll(exit_ok(b"done\n")) {
        Some(RunOutcome::Completed(text)) => assert_eq!(text, "done\n"),
        _ => panic!("a clean exit completes the attempt"),
    }
}

#[test]
fn test_keep_polling_while_running() {
    match capture_step(PollEvent::Running) {
        PollStep::KeepPolling => {}
        _ => panic!("an undecided attempt is polled again"),
    }
}
