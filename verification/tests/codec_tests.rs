use container_logger::codec::{decode_record, encode_record, LogRecord};
use container_logger::frame::{decode_frame, encode_frame, FrameStep};
use container_logger::varint::{decode_varint, encode_varint};

fn rec(time_nano: i64, source: &[u8], line: &[u8]) -> LogRecord {
    LogRecord { time_nano, source: source.to_vec(), line: line.to_vec() }
}

#[test]
fn varint_small_values() {
    let mut out = Vec::new();
    encode_varint(0, &mut out);
    assert_eq!(out, vec![0x00]);
    let mut out = Vec::new();
    encode_varint(127, &mut out);
    assert_eq!(out, vec![0x7f]);
    let mut out = Vec::new();
    encode_varint(300, &mut out);
    assert_eq!(out, vec![0xac, 0x02]);
}

#[test]
fn varint_decode_round_trip() {
    for n in [0u64, 1, 127, 128, 300, 16383, 16384, 0xdead_beef, u64::MAX] {
        let mut out = Vec::new();
        encode_varint(n, &mut out);
        let decoded = decode_varint(&out, 0);
        assert_eq!(decoded, Some((n, out.len())));
    }
}

#[test]
fn varint_decode_rejects_non_minimal() {
    // 0x80 0x00 would also denote zero, but only 0x00 is minimal.
    assert_eq!(decode_varint(&vec![0x80, 0x00], 0), None);
    assert_eq!(decode_varint(&vec![0x00], 0), Some((0, 1)));
}

#[test]
fn varint_decode_rejects_overflow() {
    // Eleven continuation-chained bytes can only denote values past u64.
    let v = vec![0x80, 0x80, 0x80, 0x80, 0x80, 0x80, 0x80, 0x80, 0x80, 0x80, 0x01];
    assert_eq!(decode_varint(&v, 0), None);
    // 2^64 exactly: ten bytes with a final 2.
    let v = vec![0x80, 0x80, 0x80, 0x80, 0x80, 0x80, 0x80, 0x80, 0x80, 0x02];
    assert_eq!(decode_varint(&v, 0), None);
    // u64::MAX itself still fits.
    let v = vec![0xff, 0xff, 0xff, 0xff, 0xff, 0xff, 0xff, 0xff, 0xff, 0x01];
    assert_eq!(decode_varint(&v, 0), Some((u64::MAX, 10)));
}

#[test]
fn varint_decode_rejects_truncation() {
    assert_eq!(decode_varint(&vec![], 0), None);
    assert_eq!(decode_varint(&vec![0xac], 0), None);
}

#[test]
fn record_encode_exact_bytes() {
    let r = rec(1, b"a", b"b");
    let encoded = encode_record(&r);
    assert_eq!(encoded, vec![0x0a, 0x01, 0x61, 0x10, 0x01, 0x1a, 0x01, 0x62]);
}

#[test]
fn record_round_trip_simple() {
    let r = rec(1_234_567_890, b"stdout", b"hello world");
    let encoded = encode_record(&r);
    let decoded = decode_record(&encoded).unwrap();
    assert_eq!(decoded.time_nano, 1_234_567_890);
    assert_eq!(decoded.source, b"stdout".to_vec());
    assert_eq!(decoded.line, b"hello world".to_vec());
}

#[test]
fn record_round_trip_negative_time() {
    let r = rec(-42, b"stderr", b"x");
    let decoded = decode_record(&encode_record(&r)).unwrap();
    assert_eq!(decoded.time_nano, -42);
    let r = rec(i64::MIN, b"s", b"");
    let decoded = decode_record(&encode_record(&r)).unwrap();
    assert_eq!(decoded.time_nano, i64::MIN);
}

#[test]
fn record_round_trip_empty_fields() {
    let r = rec(0, b"", b"");
    let decoded = decode_record(&encode_record(&r)).unwrap();
    assert_eq!(decoded.time_nano, 0);
    assert_eq!(decoded.source, Vec::<u8>::new());
    assert_eq!(decoded.line, Vec::<u8>::new());
}

#[test]
fn record_line_may_hold_newlines() {
    let r = rec(7, b"stdout", b"two\nlines\n");
    let decoded = decode_record(&encode_record(&r)).unwrap();
    assert_eq!(decoded.line, b"two\nlines\n".to_vec());
}

#[test]
fn record_decode_skips_unknown_fields() {
    // field 4 (varint 1), then source, then field 6 (two bytes), then line.
    let payload = vec![
        0x20, 0x01, // field 4, wire 0
        0x0a, 0x03, 0x6f, 0x75, 0x74, // source "out"
        0x32, 0x02, 0xde, 0xad, // field 6, wire 2
        0x1a, 0x02, 0x68, 0x69, // line "hi"
    ];
    let decoded = decode_record(&payload).unwrap();
    assert_eq!(decoded.time_nano, 0);
    assert_eq!(decoded.source, b"out".to_vec());
    assert_eq!(decoded.line, b"hi".to_vec());
}

#[test]
fn record_decode_last_field_wins() {
    let payload = vec![0x10, 0x05, 0x10, 0x09];
    let decoded = decode_record(&payload).unwrap();
    assert_eq!(decoded.time_nano, 9);
}

#[test]
fn record_decode_rejects_malformed() {
    // field number zero
    assert!(decode_record(&vec![0x00]).is_none());
    // wire type 3 (a group) is not part of the record shape
    assert!(decode_record(&vec![0x0b]).is_none());
    // declared byte-string length runs past the payload
    assert!(decode_record(&vec![0x0a, 0x05, 0x61]).is_none());
    // varint field cut off
    assert!(decode_record(&vec![0x10, 0x80]).is_none());
}

#[test]
fn frame_round_trip() {
    let r = rec(5, b"stdout", b"abc");
    let framed = encode_frame(&r).unwrap();
    let payload = encode_record(&r);
    assert_eq!(framed[0..4], [0, 0, 0, payload.len() as u8]);
    assert_eq!(&framed[4..], &payload[..]);
    match decode_frame(&framed, 0) {
        FrameStep::Rec(decoded, next) => {
            assert_eq!(decoded.time_nano, 5);
            assert_eq!(decoded.source, b"stdout".to_vec());
            assert_eq!(decoded.line, b"abc".to_vec());
            assert_eq!(next, framed.len());
        },
        _ => panic!("expected a record"),
    }
}

#[test]
fn frame_with_long_line_round_trips() {
    // a payload past 255 bytes exercises the multi-byte length varint and
    // the higher bytes of the frame prefix
    let r = rec(99, b"stdout", &[0x41u8; 300]);
    let framed = encode_frame(&r).unwrap();
    assert_eq!(framed[0..2], [0, 0]);
    assert!(framed[2] >= 1);
    match decode_frame(&framed, 0) {
        FrameStep::Rec(decoded, next) => {
            assert_eq!(decoded.line, vec![0x41u8; 300]);
            assert_eq!(next, framed.len());
        },
        _ => panic!("expected a record"),
    }
}

#[test]
fn frame_end_and_truncation() {
    assert!(matches!(decode_frame(&vec![], 0), FrameStep::End));
    // inside the length prefix
    assert!(matches!(decode_frame(&vec![0, 0, 0], 0), FrameStep::Truncated));
    // declared length exceeds what follows
    assert!(matches!(decode_frame(&vec![0, 0, 0, 5, 1, 2], 0), FrameStep::Truncated));
}

#[test]
fn frame_malformed_payload() {
    assert!(matches!(decode_frame(&vec![0, 0, 0, 1, 0x00], 0), FrameStep::Malformed));
}
