//! The record payload codec.
//!
//! A payload is a sequence of tagged fields, each a varint key `field * 8 +
//! wire_type` followed by its value: wire type 0 is a varint, type 2 a
//! varint-length-prefixed byte string, types 1 and 5 are fixed eight- and
//! four-byte values. A record carries its source tag in byte-string field 1,
//! its timestamp in varint field 2 (a 64-bit two's-complement count of
//! nanoseconds) and its line in byte-string field 3; fields of other numbers
//! are skipped, a repeated field keeps its last value, and a missing field
//! keeps its zero default. Any other shape is malformed, and the decoder
//! never resynchronizes.

use vstd::prelude::*;

use crate::varint::{decode_varint, encode_varint, parse_varint_u64_at, varint};

verus! {

/// One decoded record of the stream: a timestamp in nanoseconds, a short
/// source tag (say, the bytes of "stdout" or "stderr"), and the line itself,
/// which may hold arbitrary bytes.
#[derive(Debug)]
pub struct LogRecord {
    pub time_nano: i64,
    pub source: Vec<u8>,
    pub line: Vec<u8>,
}

/// The mathematical value of a record.
pub ghost struct RecordView {
    pub time_nano: i64,
    pub source: Seq<u8>,
    pub line: Seq<u8>,
}

impl View for LogRecord {
    type V = RecordView;

    open spec fn view(&self) -> RecordView {
        RecordView { time_nano: self.time_nano, source: self.source@, line: self.line@ }
    }
}

/// The two's-complement image of a timestamp on the wire.
pub open spec fn u64_of_i64(x: i64) -> u64 {
    if x >= 0 {
        x as u64
    } else {
        (x + 0x1_0000_0000_0000_0000) as u64
    }
}

/// The timestamp a wire value stands for.
pub open spec fn i64_of_u64(v: u64) -> i64 {
    if v < 0x8000_0000_0000_0000 {
        v as i64
    } else {
        (v - 0x1_0000_0000_0000_0000) as i64
    }
}

/// The wire value round-trips through its timestamp and back.
pub proof fn lemma_time_round_trip(x: i64)
    ensures
        i64_of_u64(u64_of_i64(x)) == x,
{
}

fn time_to_wire(x: i64) -> (v: u64)
    ensures
        v == u64_of_i64(x),
{
    if x >= 0 {
        x as u64
    } else {
        ((x as i128) + 0x1_0000_0000_0000_0000i128) as u64
    }
}

fn time_from_wire(v: u64) -> (x: i64)
    ensures
        x == i64_of_u64(v),
{
    if v < 0x8000_0000_0000_0000 {
        v as i64
    } else {
        ((v as i128) - 0x1_0000_0000_0000_0000i128) as i64
    }
}

/// The encoding of a record: its three fields in tag order.
pub open spec fn spec_encode_record(r: RecordView) -> Seq<u8> {
    seq![0x0au8] + varint(r.source.len() as u64) + r.source + seq![0x10u8] + varint(
        u64_of_i64(r.time_nano),
    ) + seq![0x1au8] + varint(r.line.len() as u64) + r.line
}

/// Append `data` to `out`.
fn push_bytes(out: &mut Vec<u8>, data: &Vec<u8>)
    ensures
        final(out)@ == old(out)@ + data@,
{
    let mut i: usize = 0;
    while i < data.len()
        invariant
            i <= data.len(),
            out@ == old(out)@ + data@.subrange(0, i as int),
        decreases data.len() - i,
    {
        out.push(data[i]);
        i = i + 1;
        assert(out@ =~= old(out)@ + data@.subrange(0, i as int));
    }
    assert(out@ =~= old(out)@ + data@);
}

/// The bytes of `s` from `from` to `to`, as a fresh vector.
fn copy_range(s: &Vec<u8>, from: usize, to: usize) -> (out: Vec<u8>)
    requires
        from <= to <= s.len(),
    ensures
        out@ == s@.subrange(from as int, to as int),
{
    let mut out: Vec<u8> = Vec::new();
    let mut i: usize = from;
    while i < to
        invariant
            from <= i <= to <= s.len(),
            out@ == s@.subrange(from as int, i as int),
        decreases to - i,
    {
        out.push(s[i]);
        i = i + 1;
        assert(out@ =~= s@.subrange(from as int, i as int));
    }
    out
}

/// Encode `r` as one record payload.
pub fn encode_record(r: &LogRecord) -> (out: Vec<u8>)
    ensures
        out@ == spec_encode_record(r@),
{
    let mut out: Vec<u8> = Vec::new();
    out.push(0x0a);
    encode_varint(r.source.len() as u64, &mut out);
    push_bytes(&mut out, &r.source);
    out.push(0x10);
    encode_varint(time_to_wire(r.time_nano), &mut out);
    out.push(0x1a);
    encode_varint(r.line.len() as u64, &mut out);
    push_bytes(&mut out, &r.line);
    assert(out@ =~= spec_encode_record(r@));
    out
}

/// Parse of the fields of a payload from position `pos` on, given the values
/// the fields seen so far left behind; `None` is a malformed payload.
pub open spec fn parse_fields(
    s: Seq<u8>,
    pos: int,
    time: u64,
    source: Seq<u8>,
    line: Seq<u8>,
) -> Option<RecordView>
    decreases s.len() - pos,
    via parse_fields_dec
{
    if pos == s.len() {
        Some(RecordView { time_nano: i64_of_u64(time), source, line })
    } else if pos < 0 || pos > s.len() {
        None
    } else {
        match parse_varint_u64_at(s, pos) {
            None => None,
            Some((tag, l)) => {
                let p = pos + l;
                let field = tag / 8;
                let wire = tag % 8;
                if field == 0 {
                    None
                } else if wire == 0 {
                    match parse_varint_u64_at(s, p) {
                        None => None,
                        Some((v, l2)) => parse_fields(
                            s,
                            p + l2,
                            if field == 2 {
                                v
                            } else {
                                time
                            },
                            source,
                            line,
                        ),
                    }
                } else if wire == 2 {
                    match parse_varint_u64_at(s, p) {
                        None => None,
                        Some((len, l2)) => if p + l2 + len > s.len() {
                            None
                        } else {
                            parse_fields(
                                s,
                                p + l2 + len,
                                time,
                                if field == 1 {
                                    s.subrange(p + l2, p + l2 + len)
                                } else {
                                    source
                                },
                                if field == 3 {
                                    s.subrange(p + l2, p + l2 + len)
                                } else {
                                    line
                                },
                            )
                        },
                    }
                } else if wire == 1 {
                    if p + 8 <= s.len() {
                        parse_fields(s, p + 8, time, source, line)
                    } else {
                        None
                    }
                } else if wire == 5 {
                    if p + 4 <= s.len() {
                        parse_fields(s, p + 4, time, source, line)
                    } else {
                        None
                    }
                } else {
                    None
                }
            },
        }
    }
}

#[via_fn]
proof fn parse_fields_dec(s: Seq<u8>, pos: int, time: u64, source: Seq<u8>, line: Seq<u8>) {
    crate::varint::lemma_parse_varint_len(s, pos);
    match crate::varint::parse_varint_at(s, pos) {
        Some((tag, l)) => {
            crate::varint::lemma_parse_varint_len(s, pos + l);
        },
        None => {},
    }
}

/// Parse of a whole payload: fields start at its first byte, with zero
/// defaults behind them.
pub open spec fn parse_record(s: Seq<u8>) -> Option<RecordView> {
    parse_fields(s, 0, 0, Seq::empty(), Seq::empty())
}

/// Decode one record payload; `None` is a malformed payload.
pub fn decode_record(payload: &Vec<u8>) -> (r: Option<LogRecord>)
    ensures
        match r {
            Some(rec) => parse_record(payload@) == Some(rec@),
            None => parse_record(payload@) is None,
        },
{
    let mut pos: usize = 0;
    let mut time: u64 = 0;
    let mut source: Vec<u8> = Vec::new();
    let mut line: Vec<u8> = Vec::new();
    loop
        invariant
            pos <= payload.len(),
            parse_record(payload@) == parse_fields(payload@, pos as int, time, source@, line@),
        decreases payload@.len() - pos,
    {
        if pos == payload.len() {
            return Some(LogRecord { time_nano: time_from_wire(time), source, line });
        }
        let (tag, p) = match decode_varint(payload, pos) {
            None => {
                return None;
            },
            Some(t) => t,
        };
        let field = tag / 8;
        let wire = tag % 8;
        if field == 0 {
            return None;
        } else if wire == 0 {
            let (v, p2) = match decode_varint(payload, p) {
                None => {
                    return None;
                },
                Some(t) => t,
            };
            if field == 2 {
                time = v;
            }
            pos = p2;
        } else if wire == 2 {
            let (len, p2) = match decode_varint(payload, p) {
                None => {
                    return None;
                },
                Some(t) => t,
            };
            let remaining = payload.len() - p2;
            if len > remaining as u64 {
                return None;
            }
            let end = p2 + len as usize;
            if field == 1 {
                source = copy_range(payload, p2, end);
            } else if field == 3 {
                line = copy_range(payload, p2, end);
            }
            pos = end;
        } else if wire == 1 {
            if payload.len() - p < 8 {
                return None;
            }
            pos = p + 8;
        } else if wire == 5 {
            if payload.len() - p < 4 {
                return None;
            }
            pos = p + 4;
        } else {
            return None;
        }
    }
}

/// Decoding an encoded record gives the record back: the codec round-trips on
/// every record whose source and line fit in memory.
pub proof fn lemma_record_round_trip(r: RecordView)
    requires
        r.source.len() <= usize::MAX,
        r.line.len() <= usize::MAX,
    ensures
        parse_record(spec_encode_record(r)) == Some(r),
{
    let s = spec_encode_record(r);
    let slen = r.source.len() as u64;
    let tw = u64_of_i64(r.time_nano);
    let llen = r.line.len() as u64;

    // field 1: tag byte, source length, source bytes
    crate::varint::lemma_varint_round_trip(seq![0x0au8], slen, r.source + seq![0x10u8] + varint(
        tw,
    ) + seq![0x1au8] + varint(llen) + r.line);
    assert(seq![0x0au8] + varint(slen) + (r.source + seq![0x10u8] + varint(tw) + seq![0x1au8]
        + varint(llen) + r.line) =~= s);
    assert(s[0] == 0x0au8);
    assert(parse_varint_u64_at(s, 0) == Some((0x0au64, 1int))) by {
        assert(crate::varint::parse_varint_at(s, 0) == Some((0x0au8 as nat, 1int)));
    }
    let pos1 = 1 + varint(slen).len() as int;
    assert(parse_varint_u64_at(s, 1) == Some((slen, varint(slen).len() as int)));
    let pos2 = pos1 + r.source.len() as int;
    assert(s.subrange(pos1, pos2) =~= r.source);

    // field 2: tag byte, timestamp varint
    let pre2 = seq![0x0au8] + varint(slen) + r.source;
    assert(s[pos2] == 0x10u8);
    assert(parse_varint_u64_at(s, pos2) == Some((0x10u64, 1int))) by {
        assert(s[pos2] == 0x10u8);
        assert(crate::varint::parse_varint_at(s, pos2) == Some((0x10u8 as nat, 1int)));
    }
    crate::varint::lemma_varint_round_trip(pre2 + seq![0x10u8], tw, seq![0x1au8] + varint(llen)
        + r.line);
    assert((pre2 + seq![0x10u8]) + varint(tw) + (seq![0x1au8] + varint(llen) + r.line) =~= s);
    assert((pre2 + seq![0x10u8]).len() == pos2 + 1);
    assert(parse_varint_u64_at(s, pos2 + 1) == Some((tw, varint(tw).len() as int)));
    let pos3 = pos2 + 1 + varint(tw).len() as int;

    // field 3: tag byte, line length, line bytes
    let pre3 = pre2 + seq![0x10u8] + varint(tw);
    assert(s[pos3] == 0x1au8);
    assert(parse_varint_u64_at(s, pos3) == Some((0x1au64, 1int))) by {
        assert(crate::varint::parse_varint_at(s, pos3) == Some((0x1au8 as nat, 1int)));
    }
    crate::varint::lemma_varint_round_trip(pre3 + seq![0x1au8], llen, r.line);
    assert((pre3 + seq![0x1au8]) + varint(llen) + r.line =~= s);
    assert((pre3 + seq![0x1au8]).len() == pos3 + 1);
    assert(parse_varint_u64_at(s, pos3 + 1) == Some((llen, varint(llen).len() as int)));
    let pos4 = pos3 + 1 + varint(llen).len() as int;
    let pos5 = pos4 + r.line.len() as int;
    assert(s.subrange(pos4, pos5) =~= r.line);
    assert(pos5 == s.len());

    lemma_time_round_trip(r.time_nano);
    assert(parse_fields(s, pos5, tw, r.source, r.line) == Some(r));
    assert(parse_fields(s, pos3, tw, r.source, Seq::empty()) == parse_fields(
        s,
        pos5,
        tw,
        r.source,
        r.line,
    ));
    assert(parse_fields(s, pos2, 0u64, r.source, Seq::empty()) == parse_fields(
        s,
        pos3,
        tw,
        r.source,
        Seq::empty(),
    ));
    assert(parse_fields(s, 0, 0u64, Seq::empty(), Seq::empty()) == parse_fields(
        s,
        pos2,
        0u64,
        r.source,
        Seq::empty(),
    ));
}

} // verus!
