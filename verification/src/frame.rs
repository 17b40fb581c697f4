//! Frames of the record stream: a four-byte big-endian unsigned length,
//! then exactly that many payload bytes, which the record codec decodes.
//!
//! A source that ends exactly on a frame boundary ends cleanly; one that ends
//! inside a length prefix or before the declared payload is complete is an
//! incomplete read; a payload the codec rejects is malformed. There is no
//! resynchronization after either failure.

use vstd::prelude::*;

use crate::codec::{
    decode_record, encode_record, parse_record, spec_encode_record, LogRecord, RecordView,
};

verus! {

/// The big-endian four-byte encoding of a length.
pub open spec fn be32(n: u32) -> Seq<u8> {
    seq![
        ((n >> 24) & 0xff) as u8,
        ((n >> 16) & 0xff) as u8,
        ((n >> 8) & 0xff) as u8,
        (n & 0xff) as u8,
    ]
}

/// The length a four-byte big-endian prefix declares.
pub open spec fn be32_val(s: Seq<u8>) -> nat
    recommends
        s.len() >= 4,
{
    (s[0] as nat) * 0x100_0000 + (s[1] as nat) * 0x1_0000 + (s[2] as nat) * 0x100 + (s[3] as nat)
}

/// The length prefix round-trips.
pub proof fn lemma_be32_round_trip(n: u32)
    ensures
        be32(n).len() == 4,
        be32_val(be32(n)) == n,
{
    assert(((n >> 24) & 0xff) * 0x100_0000 + ((n >> 16) & 0xff) * 0x1_0000 + ((n >> 8) & 0xff)
        * 0x100 + (n & 0xff) == n) by (bit_vector);
    assert((n >> 24) & 0xff < 0x100 && (n >> 16) & 0xff < 0x100 && (n >> 8) & 0xff < 0x100 && n
        & 0xff < 0x100) by (bit_vector);
    assert(be32(n)[0] as nat == ((n >> 24) & 0xff) as nat);
    assert(be32(n)[1] as nat == ((n >> 16) & 0xff) as nat);
    assert(be32(n)[2] as nat == ((n >> 8) & 0xff) as nat);
    assert(be32(n)[3] as nat == (n & 0xff) as nat);
}

/// A record fits in a frame when its encoding's length fits the prefix.
pub open spec fn record_fits(r: RecordView) -> bool {
    spec_encode_record(r).len() <= 0xffff_ffff
}

/// The frame that carries `r`.
pub open spec fn spec_encode_frame(r: RecordView) -> Seq<u8> {
    be32(spec_encode_record(r).len() as u32) + spec_encode_record(r)
}

/// Encode `r` as one frame; `None` exactly when the record is too large for
/// the length prefix.
pub fn encode_frame(rec: &LogRecord) -> (r: Option<Vec<u8>>)
    ensures
        match r {
            Some(v) => record_fits(rec@) && v@ == spec_encode_frame(rec@),
            None => !record_fits(rec@),
        },
{
    let payload = encode_record(rec);
    if payload.len() > 0xffff_ffffusize {
        return None;
    }
    let n = payload.len() as u32;
    assert(n >> 24 < 0x100 && (n >> 16) & 0xff < 0x100 && (n >> 8) & 0xff < 0x100 && n & 0xff
        < 0x100 && (n >> 24) & 0xff == n >> 24) by (bit_vector);
    let mut out: Vec<u8> = Vec::new();
    out.push((n >> 24) as u8);
    out.push(((n >> 16) & 0xff) as u8);
    out.push(((n >> 8) & 0xff) as u8);
    out.push((n & 0xff) as u8);
    let mut payload = payload;
    out.append(&mut payload);
    assert(out@ =~= spec_encode_frame(rec@));
    Some(out)
}

/// What one step of decoding finds at a position of the stream.
pub enum FrameStep {
    /// A complete frame holding this record; the position just past it.
    Rec(LogRecord, usize),
    /// The stream ends here, exactly on a frame boundary.
    End,
    /// The stream ends inside the length prefix or before the declared
    /// payload length is satisfied.
    Truncated,
    /// The payload does not decode as a record.
    Malformed,
}

/// The mathematical value of a decoding step.
pub ghost enum FrameStepView {
    Rec(RecordView, int),
    End,
    Truncated,
    Malformed,
}

/// Decode of the stream `s` at position `pos`.
pub open spec fn spec_decode_frame(s: Seq<u8>, pos: int) -> FrameStepView
    recommends
        0 <= pos <= s.len(),
{
    if pos == s.len() {
        FrameStepView::End
    } else if pos + 4 > s.len() {
        FrameStepView::Truncated
    } else {
        let size = be32_val(s.subrange(pos, pos + 4)) as int;
        if pos + 4 + size > s.len() {
            FrameStepView::Truncated
        } else {
            match parse_record(s.subrange(pos + 4, pos + 4 + size)) {
                None => FrameStepView::Malformed,
                Some(r) => FrameStepView::Rec(r, pos + 4 + size),
            }
        }
    }
}

/// Decode one frame of `s` at position `pos`.
pub fn decode_frame(s: &Vec<u8>, pos: usize) -> (r: FrameStep)
    requires
        pos <= s@.len(),
    ensures
        match r {
            FrameStep::Rec(rec, next) => spec_decode_frame(s@, pos as int) == FrameStepView::Rec(
                rec@,
                next as int,
            ) && pos < next <= s@.len(),
            FrameStep::End => spec_decode_frame(s@, pos as int) == FrameStepView::End,
            FrameStep::Truncated => spec_decode_frame(s@, pos as int) == FrameStepView::Truncated,
            FrameStep::Malformed => spec_decode_frame(s@, pos as int) == FrameStepView::Malformed,
        },
{
    if pos == s.len() {
        return FrameStep::End;
    }
    if s.len() - pos < 4 {
        return FrameStep::Truncated;
    }
    let size: u32 = (s[pos] as u32) * 0x100_0000 + (s[pos + 1] as u32) * 0x1_0000 + (s[pos + 2]
        as u32) * 0x100 + (s[pos + 3] as u32);
    assert(size == be32_val(s@.subrange(pos as int, pos as int + 4)));
    let body = pos + 4;
    let remaining = s.len() - body;
    if size as u64 > remaining as u64 {
        return FrameStep::Truncated;
    }
    let end = body + size as usize;
    let payload = copy_payload(s, body, end);
    match decode_record(&payload) {
        None => FrameStep::Malformed,
        Some(rec) => FrameStep::Rec(rec, end),
    }
}

/// The payload bytes of a frame, as a fresh vector.
fn copy_payload(s: &Vec<u8>, from: usize, to: usize) -> (out: Vec<u8>)
    requires
        from <= to <= s.len(),
    ensures
        out@ == s@.subrange(from as int, to as int),
{
    let mut out: Vec<u8> = Vec::new();
    let mut i: usize = from;
    while i < to
        invariant
            from <= i <= to <= s.len(),
            out@ == s@.subrange(from as int, i as int),
        decreases to - i,
    {
        out.push(s[i]);
        i = i + 1;
        assert(out@ =~= s@.subrange(from as int, i as int));
    }
    out
}

/// A frame in the middle of a stream decodes to the record it carries and
/// hands back the position just past itself.
pub proof fn lemma_frame_round_trip(pre: Seq<u8>, r: RecordView, rest: Seq<u8>)
    requires
        record_fits(r),
        r.source.len() <= usize::MAX,
        r.line.len() <= usize::MAX,
    ensures
        spec_decode_frame(pre + spec_encode_frame(r) + rest, pre.len() as int)
            == FrameStepView::Rec(r, pre.len() + spec_encode_frame(r).len() as int),
{
    let s = pre + spec_encode_frame(r) + rest;
    let pos = pre.len() as int;
    let payload = spec_encode_record(r);
    let n = payload.len() as u32;
    lemma_be32_round_trip(n);
    assert(s.subrange(pos, pos + 4) =~= be32(n));
    assert(be32_val(s.subrange(pos, pos + 4)) == payload.len());
    assert(s.subrange(pos + 4, pos + 4 + payload.len()) =~= payload);
    crate::codec::lemma_record_round_trip(r);
}

} // verus!
