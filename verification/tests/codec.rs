use subconscious_core::codec::{encode_task, parse_task};
use subconscious_core::task::{CoreError, Task, TaskStatus};

#[test]
fn encode_writes_the_exact_record() {
    let t = Task::new("A".to_string(), "x".to_string(), false);
    assert_eq!(
        encode_task(&t),
        "{\"description\":\"A\",\"action\":\"x\",\"status\":\"Pending\",\"is_permanent\":false}"
    );
}

#[test]
fn encode_escapes_free_text() {
    let t = Task::new("say \"hi\"".to_string(), "a\\b\nc".to_string(), true);
    assert_eq!(
        encode_task(&t),
        "{\"description\":\"say \\\"hi\\\"\",\"action\":\"a\\\\b\\nc\",\"status\":\"Pending\",\"is_permanent\":true}"
    );
}

#[test]
fn records_round_trip() {
    let cases = vec![
        Task::new("A".to_string(), "x".to_string(), false),
        Task::new("".to_string(), "".to_string(), true),
        Task::new("quote \" and \\ slash".to_string(), "line\nbreak\ttab\r".to_string(), true),
        Task::new("unicode: caf\u{e9} \u{1f600}".to_string(), "ok".to_string(), false),
    ];
    for t in cases {
        let back = parse_task(&encode_task(&t)).unwrap();
        assert_eq!(back.description, t.description);
        assert_eq!(back.action, t.action);
        assert_eq!(back.status, t.status);
        assert_eq!(back.is_permanent, t.is_permanent);
    }
}

#[test]
fn every_status_round_trips() {
    for status in [TaskStatus::Pending, TaskStatus::InProgress, TaskStatus::Completed] {
        let mut t = Task::new("s".to_string(), "a".to_string(), false);
        t.status = status;
        let back = parse_task(&encode_task(&t)).unwrap();
        assert_eq!(back.status, status);
    }
}

#[test]
fn parse_reads_a_handwritten_record() {
    let text =
        "{\"description\":\"Self Health Check\",\"action\":\"check_status\",\"status\":\"Completed\",\"is_permanent\":true}";
    let t = parse_task(text).unwrap();
    assert_eq!(t.description, "Self Health Check");
    assert_eq!(t.action, "check_status");
    assert_eq!(t.status, TaskStatus::Completed);
    assert!(t.is_permanent);
}

#[test]
fn malformed_records_are_rejected() {
    let bad = [
        "",
        "{}",
        "not json at all",
        "{\"description\":\"A\",\"action\":\"x\",\"status\":\"Pending\",\"is_permanent\":false",
        "{\"description\":\"A\",\"action\":\"x\",\"status\":\"Unknown\",\"is_permanent\":false}",
        "{\"description\":\"A\",\"action\":\"x\",\"status\":\"Pending\",\"is_permanent\":maybe}",
        "{\"description\":\"A\\q\",\"action\":\"x\",\"status\":\"Pending\",\"is_permanent\":false}",
        "{\"description\":\"A\",\"action\":\"x\",\"status\":\"Pending\",\"is_permanent\":false} ",
        "{\"description\":\"unterminated",
    ];
    for text in bad {
        assert!(
            matches!(parse_task(text), Err(CoreError::SerializationFailure)),
            "{}",
            text
        );
    }
}
