use paira_shell::relay::{relay_event, relay_events, LogLine, StreamEvent, StreamSource};

fn stdout_line(text: &[u8]) -> StreamEvent {
    StreamEvent::Line(StreamSource::Stdout, text.to_vec())
}

fn stderr_line(text: &[u8]) -> StreamEvent {
    StreamEvent::Line(StreamSource::Stderr, text.to_vec())
}

#[test]
fn stdout_lines_come_out_in_order() {
    let events = vec![stdout_line(b"a"), stdout_line(b"b"), stdout_line(b"c")];
    let lines = relay_events(&events);
    assert_eq!(lines.len(), 3);
    assert_eq!(lines[0], LogLine { source: StreamSource::Stdout, text: "a".to_string() });
    assert_eq!(lines[1], LogLine { source: StreamSource::Stdout, text: "b".to_string() });
    assert_eq!(lines[2], LogLine { source: StreamSource::Stdout, text: "c".to_string() });
}

#[test]
fn stderr_lines_carry_the_error_prefix() {
    let line = relay_event(&stderr_line(b"boom")).expect("valid UTF-8 should be relayed");
    assert_eq!(line.source, StreamSource::Stderr);
    assert_eq!(line.text, "ERROR: boom");
}

#[test]
fn undecodable_lines_are_dropped_silently() {
    assert_eq!(relay_event(&stdout_line(&[0xff, 0xfe, 0x41])), None);
    let events = vec![stdout_line(b"first"), stdout_line(&[0xc3, 0x28]), stdout_line(b"last")];
    let lines = relay_events(&events);
    assert_eq!(lines.len(), 2);
    assert_eq!(lines[0].text, "first");
    assert_eq!(lines[1].text, "last");
}

#[test]
fn non_line_events_are_ignored() {
    assert_eq!(relay_event(&StreamEvent::Other), None);
    let events = vec![StreamEvent::Other, stdout_line(b"only"), StreamEvent::Other];
    let lines = relay_events(&events);
    assert_eq!(lines.len(), 1);
    assert_eq!(lines[0].text, "only");
}

#[test]
fn interleaved_streams_each_keep_their_order() {
    let events = vec![
        stdout_line(b"out-1"),
        stderr_line(b"err-1"),
        stdout_line(b"out-2"),
        stderr_line(b"err-2"),
    ];
    let lines = relay_events(&events);
    assert_eq!(lines.len(), 4);
    let stdout_texts: Vec<&str> = lines
        .iter()
        .filter(|l| l.source == StreamSource::Stdout)
        .map(|l| l.text.as_str())
        .collect();
    let stderr_texts: Vec<&str> = lines
        .iter()
        .filter(|l| l.source == StreamSource::Stderr)
        .map(|l| l.text.as_str())
        .collect();
    assert_eq!(stdout_texts, vec!["out-1", "out-2"]);
    assert_eq!(stderr_texts, vec!["ERROR: err-1", "ERROR: err-2"]);
}

#[test]
fn multibyte_utf8_decodes_intact() {
    let line = relay_event(&stdout_line("héllo ✓".as_bytes())).expect("valid UTF-8");
    assert_eq!(line.text, "héllo ✓");
}
