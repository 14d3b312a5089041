use vistrace::pipeline::line_is_marker;
use vistrace::pipeline::process_line;
use vistrace::pipeline::process_lines;
use vistrace::pipeline::producer_step;
use vistrace::pipeline::ProducerAction;
use vistrace::pipeline::TracerEvent;
use vistrace::syscall::Message;

fn record_name(m: &Message) -> &str {
    match m {
        Message::Syscall(sc) => &sc.name,
    }
}

#[test]
fn test_marker_lines_dropped() {
    assert!(line_is_marker("+++ exited with 0 +++"));
    assert!(line_is_marker("--- SIGCHLD {si_signo=SIGCHLD} ---"));
    assert!(!line_is_marker("close(3) = 0"));
    assert!(!line_is_marker("++"));
    assert!(!line_is_marker(""));

    assert!(process_line("+++ exited with 0 +++").is_none());
    assert!(process_line("--- SIGSEGV ---").is_none());
    assert!(process_line("close(3) = 0").is_some());
}

#[test]
fn test_failure_record_still_forwarded() {
    // a malformed line yields exactly one message, and the next line
    // proceeds normally
    let lines = vec!["write(".to_string(), "close(3) = 0".to_string()];
    let msgs = process_lines(&lines);
    assert_eq!(msgs.len(), 2);
    match &msgs[0] {
        Message::Syscall(sc) => {
            assert_eq!(sc.name, "write");
            assert!(sc.error_details.is_some());
        }
    }
    match &msgs[1] {
        Message::Syscall(sc) => {
            assert_eq!(sc.name, "close");
            assert!(sc.error_details.is_none());
            assert_eq!(sc.return_value, 0);
        }
    }
}

#[test]
fn test_pipeline_keeps_order() {
    let lines = vec![
        "execve(\"/usr/bin/echo\") = 0".to_string(),
        "+++ exited with 0 +++".to_string(),
        "close(3) = 0".to_string(),
        "--- SIGCHLD ---".to_string(),
        "read(3, \"x\", 1) = 1".to_string(),
    ];
    let msgs = process_lines(&lines);
    assert_eq!(msgs.len(), 3);
    assert_eq!(record_name(&msgs[0]), "execve");
    assert_eq!(record_name(&msgs[1]), "close");
    assert_eq!(record_name(&msgs[2]), "read");
}

#[test]
fn test_producer_step_decisions() {
    match producer_step(TracerEvent::Line("close(3) = 0".to_string())) {
        ProducerAction::Forward(m) => assert_eq!(record_name(&m), "close"),
        other => panic!("expected Forward, got {:?}", action_name(&other)),
    }
    assert!(matches!(
        producer_step(TracerEvent::Line("+++ exited with 0 +++".to_string())),
        ProducerAction::Skip
    ));
    assert!(matches!(
        producer_step(TracerEvent::Eof { exit_ok: true }),
        ProducerAction::Succeed
    ));
    assert!(matches!(
        producer_step(TracerEvent::Eof { exit_ok: false }),
        ProducerAction::Fail
    ));
}

fn action_name(a: &ProducerAction) -> &'static str {
    match a {
        ProducerAction::Forward(_) => "Forward",
        ProducerAction::Skip => "Skip",
        ProducerAction::Succeed => "Succeed",
        ProducerAction::Fail => "Fail",
    }
}
