use container_logger::codec::LogRecord;
use container_logger::forwarder::{drain_source, format_line, SessionOutcome, StreamError};
use container_logger::frame::encode_frame;

fn rec(time_nano: i64, source: &[u8], line: &[u8]) -> LogRecord {
    LogRecord { time_nano, source: source.to_vec(), line: line.to_vec() }
}

#[test]
fn format_line_exact() {
    let out = format_line(&rec(1_234_567_890, b"stdout", b"hello"));
    assert_eq!(out, b"[1234567890:stdout] hello\n".to_vec());
}

#[test]
fn format_line_negative_time() {
    let out = format_line(&rec(-5, b"stderr", b"x"));
    assert_eq!(out, b"[-5:stderr] x\n".to_vec());
}

#[test]
fn format_line_zero_and_empty() {
    let out = format_line(&rec(0, b"", b""));
    assert_eq!(out, b"[0:] \n".to_vec());
}

#[test]
fn format_line_copies_line_verbatim() {
    let out = format_line(&rec(1, b"stdout", b"a\nb"));
    assert_eq!(out, b"[1:stdout] a\nb\n".to_vec());
}

#[test]
fn drain_empty_source_closes() {
    let (lines, outcome) = drain_source(&vec![]);
    assert_eq!(lines, Vec::<u8>::new());
    assert_eq!(outcome, SessionOutcome::Closed);
}

#[test]
fn three_records() {
    // A source emitting three records then closing cleanly yields exactly
    // their three lines, in order, and the session closes without error.
    let records = [
        rec(1, b"stdout", b"first"),
        rec(2, b"stderr", b"second"),
        rec(3, b"stdout", b"third"),
    ];
    let mut source = Vec::new();
    for r in &records {
        source.extend_from_slice(&encode_frame(r).unwrap());
    }
    let (lines, outcome) = drain_source(&source);
    assert_eq!(
        lines,
        b"[1:stdout] first\n[2:stderr] second\n[3:stdout] third\n".to_vec()
    );
    assert_eq!(outcome, SessionOutcome::Closed);
}

#[test]
fn truncated_frame_appends_no_partial_record() {
    // One complete frame, then a frame whose declared length exceeds the
    // bytes available before the source closes.
    let mut source = encode_frame(&rec(1, b"stdout", b"whole")).unwrap();
    source.extend_from_slice(&[0, 0, 0, 10, 0x0a, 0x01]);
    let (lines, outcome) = drain_source(&source);
    assert_eq!(lines, b"[1:stdout] whole\n".to_vec());
    assert_eq!(outcome, SessionOutcome::Failed(StreamError::FrameRead));
}

#[test]
fn truncated_length_prefix_fails_read() {
    let (lines, outcome) = drain_source(&vec![0, 0]);
    assert_eq!(lines, Vec::<u8>::new());
    assert_eq!(outcome, SessionOutcome::Failed(StreamError::FrameRead));
}

#[test]
fn malformed_payload_fails_decode() {
    let mut source = encode_frame(&rec(1, b"stdout", b"ok")).unwrap();
    source.extend_from_slice(&[0, 0, 0, 1, 0x00]);
    let (lines, outcome) = drain_source(&source);
    assert_eq!(lines, b"[1:stdout] ok\n".to_vec());
    assert_eq!(outcome, SessionOutcome::Failed(StreamError::FrameDecode));
}
