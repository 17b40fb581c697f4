//! The stream forwarder's pure core: formatting one record as one output
//! line, and draining a source's bytes into the lines the sink receives.
//!
//! A line is `"[" + timestamp + ":" + source + "] " + line bytes + "\n"`; the
//! line bytes are copied verbatim, newlines included. Draining decodes frame
//! after frame until the source ends cleanly (`Closed`), ends mid-frame
//! (`Failed(FrameRead)`), or yields a payload the codec rejects
//! (`Failed(FrameDecode)`). A failed or truncated frame contributes nothing
//! to the output: no partial record is ever appended.

use vstd::prelude::*;

use crate::codec::{LogRecord, RecordView};
use crate::frame::{
    decode_frame, record_fits, spec_decode_frame, spec_encode_frame, FrameStep, FrameStepView,
};

verus! {

/// Why a running session ended on its own.
#[derive(Debug, Clone, Copy, PartialEq, Eq, Structural)]
pub enum StreamError {
    /// The source closed while a length prefix or a declared payload was
    /// still incomplete.
    FrameRead,
    /// A complete payload did not decode as a record.
    FrameDecode,
    /// The sink refused an append.
    SinkWrite,
}

/// The terminal state of a session.
#[derive(Debug, Clone, Copy, PartialEq, Eq, Structural)]
pub enum SessionOutcome {
    /// The source ended exactly on a frame boundary: not an error.
    Closed,
    /// A decode or write failure ended the session.
    Failed(StreamError),
    /// Cancellation through a stop request ended the session.
    Stopped,
}

/// The decimal digits of `n`, most significant first (0x30 is '0').
pub open spec fn dec_digits(n: nat) -> Seq<u8>
    decreases n,
{
    if n < 10 {
        seq![(0x30 + n) as u8]
    } else {
        dec_digits((n / 10) as nat) + seq![(0x30 + n % 10) as u8]
    }
}

/// The decimal rendering of a timestamp, 0x2d ('-') first when negative.
pub open spec fn spec_decimal_i64(x: i64) -> Seq<u8> {
    if x >= 0 {
        dec_digits(x as nat)
    } else {
        seq![0x2du8] + dec_digits((-(x as int)) as nat)
    }
}

/// The output line of one record: '[' timestamp ':' source ']' ' ' line '\n'.
pub open spec fn spec_line(r: RecordView) -> Seq<u8> {
    seq![0x5bu8] + spec_decimal_i64(r.time_nano) + seq![0x3au8] + r.source + seq![0x5du8, 0x20u8]
        + r.line + seq![0x0au8]
}

/// Append the decimal digits of `n` to `out`.
fn push_decimal_u64(n: u64, out: &mut Vec<u8>)
    ensures
        final(out)@ == old(out)@ + dec_digits(n as nat),
    decreases n,
{
    if n < 10 {
        out.push(0x30 + n as u8);
        assert(out@ =~= old(out)@ + dec_digits(n as nat));
    } else {
        proof {
            vstd::arithmetic::div_mod::lemma_fundamental_div_mod(n as int, 10);
        }
        push_decimal_u64(n / 10, out);
        out.push(0x30 + (n % 10) as u8);
        assert(out@ =~= old(out)@ + dec_digits(n as nat));
    }
}

/// Append the decimal rendering of `x` to `out`.
fn push_decimal_i64(x: i64, out: &mut Vec<u8>)
    ensures
        final(out)@ == old(out)@ + spec_decimal_i64(x),
{
    if x >= 0 {
        push_decimal_u64(x as u64, out);
    } else {
        out.push(0x2d);
        let mag = (-(x as i128)) as u64;
        push_decimal_u64(mag, out);
        assert(out@ =~= old(out)@ + spec_decimal_i64(x));
    }
}

/// Format one record as the line its sink receives.
pub fn format_line(rec: &LogRecord) -> (out: Vec<u8>)
    ensures
        out@ == spec_line(rec@),
{
    let mut out: Vec<u8> = Vec::new();
    out.push(0x5b);
    push_decimal_i64(rec.time_nano, &mut out);
    out.push(0x3a);
    push_bytes_to(&mut out, &rec.source);
    out.push(0x5d);
    out.push(0x20);
    push_bytes_to(&mut out, &rec.line);
    out.push(0x0a);
    assert(out@ =~= spec_line(rec@));
    out
}

/// Append `data` to `out`.
fn push_bytes_to(out: &mut Vec<u8>, data: &Vec<u8>)
    ensures
        final(out)@ == old(out)@ + data@,
{
    let mut i: usize = 0;
    while i < data.len()
        invariant
            i <= data.len(),
            out@ == old(out)@ + data@.subrange(0, i as int),
        decreases data.len() - i,
    {
        out.push(data[i]);
        i = i + 1;
        assert(out@ =~= old(out)@ + data@.subrange(0, i as int));
    }
    assert(out@ =~= old(out)@ + data@);
}

/// The lines and the outcome that draining `s` from position `pos` produces.
pub open spec fn spec_drain(s: Seq<u8>, pos: int) -> (Seq<u8>, SessionOutcome)
    decreases s.len() - pos,
{
    match spec_decode_frame(s, pos) {
        FrameStepView::End => (Seq::empty(), SessionOutcome::Closed),
        FrameStepView::Truncated => (Seq::empty(), SessionOutcome::Failed(StreamError::FrameRead)),
        FrameStepView::Malformed => (
            Seq::empty(),
            SessionOutcome::Failed(StreamError::FrameDecode),
        ),
        FrameStepView::Rec(r, next) => {
            let (rest, outcome) = spec_drain(s, next);
            (spec_line(r) + rest, outcome)
        },
    }
}

/// Drain a source's whole byte stream: the lines its sink receives, in
/// order, and the outcome the session ends in.
pub fn drain_source(input: &Vec<u8>) -> (r: (Vec<u8>, SessionOutcome))
    ensures
        r.0@ == spec_drain(input@, 0).0,
        r.1 == spec_drain(input@, 0).1,
{
    let mut out: Vec<u8> = Vec::new();
    let mut pos: usize = 0;
    loop
        invariant
            pos <= input@.len(),
            spec_drain(input@, 0).0 == out@ + spec_drain(input@, pos as int).0,
            spec_drain(input@, 0).1 == spec_drain(input@, pos as int).1,
        decreases input@.len() - pos,
    {
        match decode_frame(input, pos) {
            FrameStep::End => {
                assert(out@ + spec_drain(input@, pos as int).0 =~= out@);
                return (out, SessionOutcome::Closed);
            },
            FrameStep::Truncated => {
                assert(out@ + spec_drain(input@, pos as int).0 =~= out@);
                return (out, SessionOutcome::Failed(StreamError::FrameRead));
            },
            FrameStep::Malformed => {
                assert(out@ + spec_drain(input@, pos as int).0 =~= out@);
                return (out, SessionOutcome::Failed(StreamError::FrameDecode));
            },
            FrameStep::Rec(rec, next) => {
                let mut line = format_line(&rec);
                proof {
                    assert(out@ + (spec_line(rec@) + spec_drain(input@, next as int).0) =~= (out@
                        + spec_line(rec@)) + spec_drain(input@, next as int).0);
                }
                out.append(&mut line);
                pos = next;
            },
        }
    }
}

/// The frames of a run of records, in order.
pub open spec fn frames_of(rs: Seq<RecordView>) -> Seq<u8>
    decreases rs.len(),
{
    if rs.len() == 0 {
        Seq::empty()
    } else {
        spec_encode_frame(rs[0]) + frames_of(rs.skip(1))
    }
}

/// The output lines of a run of records, in order.
pub open spec fn lines_of(rs: Seq<RecordView>) -> Seq<u8>
    decreases rs.len(),
{
    if rs.len() == 0 {
        Seq::empty()
    } else {
        spec_line(rs[0]) + lines_of(rs.skip(1))
    }
}

/// Every record of the run fits a frame and memory.
pub open spec fn all_fit(rs: Seq<RecordView>) -> bool {
    forall|i: int|
        0 <= i < rs.len() ==> record_fits(#[trigger] rs[i]) && rs[i].source.len() <= usize::MAX
            && rs[i].line.len() <= usize::MAX
}

#[verifier::rlimit(50)]
proof fn lemma_drain_frames(pre: Seq<u8>, rs: Seq<RecordView>)
    requires
        all_fit(rs),
    ensures
        spec_drain(pre + frames_of(rs), pre.len() as int) == (lines_of(rs), SessionOutcome::Closed),
    decreases rs.len(),
{
    let s = pre + frames_of(rs);
    if rs.len() == 0 {
        assert(s =~= pre);
        assert(spec_decode_frame(s, pre.len() as int) == FrameStepView::End);
    } else {
        let r0 = rs[0];
        let rest = rs.skip(1);
        let pre2 = pre + spec_encode_frame(r0);
        crate::frame::lemma_frame_round_trip(pre, r0, frames_of(rest));
        assert(pre + spec_encode_frame(r0) + frames_of(rest) =~= s);
        assert(pre2 + frames_of(rest) =~= s);
        lemma_drain_frames(pre2, rest);
        assert(spec_decode_frame(s, pre.len() as int) == FrameStepView::Rec(
            r0,
            pre2.len() as int,
        ));
        assert(spec_drain(s, pre2.len() as int) == (lines_of(rest), SessionOutcome::Closed));
        assert(spec_drain(s, pre.len() as int).0 == spec_line(r0) + lines_of(rest));
    }
}

/// A source that emits a run of records and then closes cleanly drains to
/// exactly those records' lines, in order, and the session closes without
/// error.
pub proof fn lemma_drain_clean_stream(rs: Seq<RecordView>)
    requires
        all_fit(rs),
    ensures
        spec_drain(frames_of(rs), 0) == (lines_of(rs), SessionOutcome::Closed),
{
    lemma_drain_frames(Seq::empty(), rs);
    assert(Seq::<u8>::empty() + frames_of(rs) =~= frames_of(rs));
}

/// `tail` begins like a frame but its declared length exceeds the bytes that
/// follow: the shape of a source cut off mid-frame.
pub open spec fn truncated_tail(tail: Seq<u8>) -> bool {
    &&& tail.len() > 0
    &&& (tail.len() < 4 || 4 + crate::frame::be32_val(tail.subrange(0, 4)) > tail.len())
}

#[verifier::rlimit(50)]
proof fn lemma_drain_frames_truncated(pre: Seq<u8>, rs: Seq<RecordView>, tail: Seq<u8>)
    requires
        all_fit(rs),
        truncated_tail(tail),
    ensures
        spec_drain(pre + frames_of(rs) + tail, pre.len() as int) == (
            lines_of(rs),
            SessionOutcome::Failed(StreamError::FrameRead),
        ),
    decreases rs.len(),
{
    let s = pre + frames_of(rs) + tail;
    if rs.len() == 0 {
        assert(s =~= pre + tail);
        let pos = pre.len() as int;
        if tail.len() >= 4 {
            assert(s.subrange(pos, pos + 4) =~= tail.subrange(0, 4));
        }
        assert(spec_decode_frame(s, pos) == FrameStepView::Truncated);
    } else {
        let r0 = rs[0];
        let rest = rs.skip(1);
        let pre2 = pre + spec_encode_frame(r0);
        crate::frame::lemma_frame_round_trip(pre, r0, frames_of(rest) + tail);
        assert(pre + spec_encode_frame(r0) + (frames_of(rest) + tail) =~= s);
        assert(pre2 + frames_of(rest) + tail =~= s);
        lemma_drain_frames_truncated(pre2, rest, tail);
        assert(spec_decode_frame(s, pre.len() as int) == FrameStepView::Rec(
            r0,
            pre2.len() as int,
        ));
        assert(spec_drain(s, pre.len() as int).0 == spec_line(r0) + lines_of(rest));
    }
}

/// A source whose last frame declares more bytes than arrive before it closes
/// drains to exactly the lines of the complete frames before it — no partial
/// record — and the session fails with a frame-read error.
pub proof fn lemma_drain_truncated_stream(rs: Seq<RecordView>, tail: Seq<u8>)
    requires
        all_fit(rs),
        truncated_tail(tail),
    ensures
        spec_drain(frames_of(rs) + tail, 0) == (
            lines_of(rs),
            SessionOutcome::Failed(StreamError::FrameRead),
        ),
{
    lemma_drain_frames_truncated(Seq::empty(), rs, tail);
    assert(Seq::<u8>::empty() + frames_of(rs) + tail =~= frames_of(rs) + tail);
}

} // verus!
