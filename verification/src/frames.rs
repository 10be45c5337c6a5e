//! Streaming binary-frame ingestion.
//!
//! Wire format (telemetry frame v1, little-endian):
//!
//! ```text
//! offset  size  field
//! 0       2     magic 0x4D43 ("MC")
//! 2       1     version (1 supported)
//! 3       1     kind tag (0 sensor, 1 event, 2 heartbeat)
//! 4       2     payload length (0..=128)
//! 6       N     payload bytes
//! 6+N     2     checksum: sum of all preceding frame bytes mod 65536
//! ```
//!
//! Like the text path, the reader windows the stream into views of at most
//! 256 bytes and holds the carry; every framing, endian, range, version,
//! tag and checksum decision is taken by the frame step of
//! [`LanguageRuntime`]. Incomplete input mid-stream asks for more; the same
//! bytes at end-of-input are truncated; the two are never confused.

use vstd::prelude::*;

use crate::csv::concat_chunks;
use crate::error::{ErrorView, IngestError};
use crate::language::frames::{
    byte_sum, checksum_ok, declared_len, frame_step, frame_waiting, header_verdict, le16, sum_bytes,
    FRAME_BAD_CHECKSUM, FRAME_BAD_HEADER, FRAME_BAD_KIND, FRAME_BAD_VERSION, FRAME_CARRY_BYTES,
    FRAME_COMPLETE, FRAME_NEED_MORE, FRAME_OVERHEAD, FRAME_PRODUCED, FRAME_TRUNCATED, HEADER_BYTES,
    MAGIC_HI, MAGIC_LO, PAYLOAD_LIMIT,
};
use crate::language::{FrameOut, LanguageRuntime};
use crate::text::{decimal_int, decimal_i64};

verus! {

pub const VIEW_BYTES: usize = 256;
pub const MAX_PAYLOAD_BYTES: usize = 128;

/// One decoded frame with its source position.
#[derive(Debug, Clone, PartialEq, Eq)]
pub struct Frame {
    pub version: u64,
    pub kind: u64,
    pub payload: Vec<u8>,
    /// Byte range of the whole frame (header through checksum).
    pub byte_start: u64,
    pub byte_end: u64,
}

/// The content of a [`Frame`].
pub ghost struct FrameView {
    pub version: nat,
    pub kind: nat,
    pub payload: Seq<u8>,
    pub byte_start: nat,
    pub byte_end: nat,
}

impl View for Frame {
    type V = FrameView;

    open spec fn view(&self) -> FrameView {
        FrameView {
            version: self.version as nat,
            kind: self.kind as nat,
            payload: self.payload@,
            byte_start: self.byte_start as nat,
            byte_end: self.byte_end as nat,
        }
    }
}

pub open spec fn frames_view(v: Seq<Frame>) -> Seq<FrameView> {
    v.map_values(|f: Frame| f@)
}

/// The error for a refused frame step.
pub open spec fn frame_status_error(status: i64) -> ErrorView {
    if status == FRAME_BAD_HEADER {
        ErrorView::Malformed { adapter: "frame"@, detail: "bad magic or header"@ }
    } else if status == FRAME_BAD_CHECKSUM {
        ErrorView::Malformed { adapter: "frame"@, detail: "checksum mismatch"@ }
    } else if status == FRAME_TRUNCATED {
        ErrorView::Malformed { adapter: "frame"@, detail: "truncated frame at end of input"@ }
    } else if status == FRAME_BAD_VERSION {
        ErrorView::Unsupported { adapter: "frame"@, detail: "unsupported frame version"@ }
    } else if status == FRAME_BAD_KIND {
        ErrorView::Unsupported { adapter: "frame"@, detail: "unknown frame kind tag"@ }
    } else {
        ErrorView::Language("unknown frame status "@ + decimal_int(status as int))
    }
}

fn frame_status(status: i64) -> (r: IngestError)
    ensures
        r@ == frame_status_error(status),
{
    if status == FRAME_BAD_HEADER {
        IngestError::malformed("frame", "bad magic or header")
    } else if status == FRAME_BAD_CHECKSUM {
        IngestError::malformed("frame", "checksum mismatch")
    } else if status == FRAME_TRUNCATED {
        IngestError::malformed("frame", "truncated frame at end of input")
    } else if status == FRAME_BAD_VERSION {
        IngestError::unsupported("frame", "unsupported frame version")
    } else if status == FRAME_BAD_KIND {
        IngestError::unsupported("frame", "unknown frame kind tag")
    } else {
        let mut detail = String::from_str("unknown frame status ");
        let number = decimal_i64(status);
        detail.append(number.as_str());
        crate::error::language(detail.as_str())
    }
}

// ----- frames of a stream ------------------------------------------------

/// What reading a run of bytes yields: the frames at its front (those
/// before a failure), the failure if any, and the front of the frame still
/// waiting for its bytes.
pub ghost struct FrameScan {
    pub frames: Seq<FrameView>,
    pub error: Option<ErrorView>,
    pub carry: Seq<u8>,
}

pub open spec fn frames_failed(e: ErrorView) -> FrameScan {
    FrameScan { frames: seq![], error: Some(e), carry: seq![] }
}

/// The frame at the front of `s`, which stands at stream position `pos`.
pub open spec fn frame_at(s: Seq<u8>, pos: nat) -> FrameView {
    let n = declared_len(s);
    FrameView {
        version: s[2] as nat,
        kind: s[3] as nat,
        payload: s.subrange(HEADER_BYTES as int, HEADER_BYTES + n),
        byte_start: pos,
        byte_end: (pos + FRAME_OVERHEAD + n) as nat,
    }
}

/// Reading `s`, whose first byte stands at stream position `pos`: frame
/// after frame until the bytes run out, a frame is refused, or a frame is
/// not yet fully staged.
pub open spec fn frames_scan(s: Seq<u8>, pos: nat) -> FrameScan
    decreases s.len(),
{
    if s.len() == 0 || frame_waiting(s) {
        FrameScan { frames: seq![], error: None, carry: s }
    } else if header_verdict(s) != FRAME_PRODUCED {
        frames_failed(frame_status_error(header_verdict(s)))
    } else if !checksum_ok(s) {
        frames_failed(frame_status_error(FRAME_BAD_CHECKSUM))
    } else {
        let len = FRAME_OVERHEAD + declared_len(s);
        let rest = frames_scan(s.skip(len as int), (pos + len) as nat);
        FrameScan {
            frames: seq![frame_at(s, pos)] + rest.frames,
            error: rest.error,
            carry: rest.carry,
        }
    }
}

/// A staged front that is not waiting holds at least its whole header, and
/// when that header is sound, its whole frame.
pub proof fn lemma_not_waiting(s: Seq<u8>)
    requires
        s.len() > 0,
        !frame_waiting(s),
    ensures
        s.len() >= HEADER_BYTES,
        header_verdict(s) == FRAME_PRODUCED ==> s.len() >= FRAME_OVERHEAD + declared_len(s)
            && declared_len(s) <= PAYLOAD_LIMIT,
{
}

/// A waiting front is shorter than a frame of the largest size.
pub proof fn lemma_waiting_short(s: Seq<u8>)
    requires
        frame_waiting(s),
    ensures
        s.len() < FRAME_CARRY_BYTES,
{
}

/// The decisions on a front that is not waiting only read that front.
pub proof fn lemma_front_decides(a: Seq<u8>, t: Seq<u8>)
    requires
        a.len() > 0,
        !frame_waiting(a),
    ensures
        !frame_waiting(a + t),
        header_verdict(a + t) == header_verdict(a),
        header_verdict(a) == FRAME_PRODUCED ==> {
            &&& declared_len(a + t) == declared_len(a)
            &&& checksum_ok(a + t) == checksum_ok(a)
            &&& frame_at(a + t, 0) == frame_at(a, 0)
            &&& (a + t).skip(FRAME_OVERHEAD + declared_len(a)) == a.skip(
                FRAME_OVERHEAD + declared_len(a),
            ) + t
        },
{
    let at = a + t;
    assert(at[0] == a[0] && at[1] == a[1] && at[2] == a[2] && at[3] == a[3] && at[4] == a[4]
        && at[5] == a[5]);
    if header_verdict(a) == FRAME_PRODUCED {
        let n = declared_len(a) as int;
        assert(at.take(HEADER_BYTES + n) =~= a.take(HEADER_BYTES + n));
        assert(at[HEADER_BYTES + n] == a[HEADER_BYTES + n]);
        assert(at[HEADER_BYTES + n + 1] == a[HEADER_BYTES + n + 1]);
        assert(at.subrange(HEADER_BYTES as int, HEADER_BYTES + n) =~= a.subrange(
            HEADER_BYTES as int,
            HEADER_BYTES + n,
        ));
        assert(at.skip(FRAME_OVERHEAD + n) =~= a.skip(FRAME_OVERHEAD + n) + t);
    }
}

/// Reading `s ++ t` is reading `s`, then reading what `s` left waiting
/// followed by `t`; a failure within `s` is the failure of `s ++ t`.
pub proof fn lemma_frames_scan_concat(s: Seq<u8>, t: Seq<u8>, pos: nat)
    ensures
        ({
            let first = frames_scan(s, pos);
            let whole = frames_scan(s + t, pos);
            if first.error is Some {
                whole == first
            } else {
                let second = frames_scan(
                    first.carry + t,
                    (pos + s.len() - first.carry.len()) as nat,
                );
                &&& whole.frames == first.frames + second.frames
                &&& whole.error == second.error
                &&& whole.carry == second.carry
                &&& first.carry.len() <= s.len()
            }
        }),
    decreases s.len(),
{
    if s.len() == 0 || frame_waiting(s) {
        assert(s + t == s + t);
        let whole = frames_scan(s + t, pos);
        assert(seq![] + whole.frames =~= whole.frames);
    } else {
        lemma_front_decides(s, t);
        if header_verdict(s) == FRAME_PRODUCED && checksum_ok(s) {
            let len = FRAME_OVERHEAD + declared_len(s);
            lemma_frames_scan_concat(s.skip(len as int), t, (pos + len) as nat);
            let rest = frames_scan(s.skip(len as int), (pos + len) as nat);
            if rest.error is None {
                let f = frame_at(s, pos);
                assert(frame_at(s + t, pos) == f);
                let second = frames_scan(
                    rest.carry + t,
                    (pos + len + s.skip(len as int).len() - rest.carry.len()) as nat,
                );
                assert(seq![f] + (rest.frames + second.frames) =~= (seq![f] + rest.frames)
                    + second.frames);
            } else {
                assert(frame_at(s + t, pos) == frame_at(s, pos));
            }
        }
    }
}

/// How one frame step over `carry ++ view` advances the reading of
/// `carry ++ view ++ rest`.
pub proof fn lemma_frame_step_scan(carry: Seq<u8>, view: Seq<u8>, rest: Seq<u8>, pos: nat)
    requires
        carry.len() <= FRAME_CARRY_BYTES,
        view.len() > 0 ==> carry.len() == 0 || frame_waiting(carry),
    ensures
        ({
            let st = frame_step(carry, view, false);
            let sc = frames_scan(carry + view + rest, pos);
            &&& st.status == FRAME_PRODUCED || st.status == FRAME_NEED_MORE || st.status
                == FRAME_BAD_HEADER || st.status == FRAME_BAD_CHECKSUM || st.status
                == FRAME_BAD_VERSION || st.status == FRAME_BAD_KIND
            &&& (st.status != FRAME_PRODUCED && st.status != FRAME_NEED_MORE) ==> sc
                == frames_failed(frame_status_error(st.status))
            &&& st.status == FRAME_NEED_MORE ==> {
                &&& st.carry == carry + view
                &&& (st.carry.len() == 0 || frame_waiting(st.carry))
                &&& st.consumed == view.len()
            }
            &&& st.status == FRAME_PRODUCED ==> {
                let next = frames_scan(st.carry + view.skip(st.consumed as int) + rest, pos + st.frame_len);
                &&& st.consumed <= view.len()
                &&& view.len() > 0 ==> st.consumed > 0
                &&& view.len() == 0 ==> st.carry.len() < carry.len()
                &&& st.carry.len() <= FRAME_CARRY_BYTES
                &&& st.frame_len == FRAME_OVERHEAD + declared_len(carry + view)
                &&& carry.len() + st.consumed == st.frame_len + st.carry.len()
                &&& sc == FrameScan {
                    frames: seq![FrameView {
                        version: st.version,
                        kind: st.kind,
                        payload: st.payload,
                        byte_start: pos,
                        byte_end: pos + st.frame_len,
                    }] + next.frames,
                    error: next.error,
                    carry: next.carry,
                }
            }
        }),
{
    let staged = carry + view;
    let s = carry + view + rest;
    if staged.len() == 0 {
        assert(s =~= rest);
        assert(seq![] + view.skip(0) + rest =~= rest);
    } else if frame_waiting(staged) {
        assert(view.skip(view.len() as int) + rest =~= rest);
        assert(staged + view.skip(view.len() as int) + rest =~= s);
    } else {
        lemma_front_decides(staged, rest);
        lemma_not_waiting(staged);
        assert(s =~= staged + rest);
        if header_verdict(staged) == FRAME_PRODUCED && checksum_ok(staged) {
            let n = declared_len(staged) as int;
            let len = FRAME_OVERHEAD + n;
            let tail = staged.skip(len);
            let keep = if tail.len() > FRAME_CARRY_BYTES {
                FRAME_CARRY_BYTES as int
            } else {
                tail.len() as int
            };
            let consumed = len + keep - carry.len();
            if view.len() > 0 && carry.len() > 0 {
                if carry.len() >= HEADER_BYTES {
                    assert(declared_len(carry) == declared_len(staged)) by {
                        assert(staged[4] == carry[4] && staged[5] == carry[5]);
                    }
                }
            }
            assert(tail.take(keep) + view.skip(consumed) =~= tail) by {
                assert forall|k: int| 0 <= k < tail.len() implies (tail.take(keep) + view.skip(
                    consumed,
                ))[k] == tail[k] by {
                    if k >= keep {
                        assert(view.skip(consumed)[k - keep] == view[consumed + k - keep]);
                        assert(staged[len + k] == view[len + k - carry.len()]);
                    }
                }
            }
            assert(s.skip(len) =~= tail + rest);
        }
    }
}

// ----- the reader --------------------------------------------------------

/// Incremental frame reader over an arbitrary chunk stream.
#[derive(Debug)]
pub struct FrameReader {
    carry: Vec<u8>,
    stream_pos: u64,
}

/// The state of a [`FrameReader`]: the front of the frame waiting for its
/// bytes, and the number of bytes fed.
pub ghost struct FrameReaderView {
    pub carry: Seq<u8>,
    pub stream_pos: nat,
}

impl FrameReaderView {
    /// The carry is the front of a frame still waiting for its bytes.
    pub open spec fn wf(self) -> bool {
        &&& self.carry.len() == 0 || frame_waiting(self.carry)
        &&& self.carry.len() <= self.stream_pos
    }

    /// Stream position of the first carried byte.
    pub open spec fn carry_start(self) -> nat {
        (self.stream_pos - self.carry.len()) as nat
    }
}

/// What feeding `chunk` to a reader in state `r` reads.
pub open spec fn frame_feed_scan(r: FrameReaderView, chunk: Seq<u8>) -> FrameScan {
    frames_scan(r.carry + chunk, r.carry_start())
}

/// The state after feeding `chunk` read as `scan`.
pub open spec fn frame_after_feed(r: FrameReaderView, chunk: Seq<u8>, scan: FrameScan) -> FrameReaderView {
    FrameReaderView { carry: scan.carry, stream_pos: r.stream_pos + chunk.len() }
}

/// What finishing a reader in state `r` reads: a frame still waiting at end
/// of input is truncated.
pub open spec fn frame_finish_scan(r: FrameReaderView) -> FrameScan {
    if r.carry.len() == 0 {
        FrameScan { frames: seq![], error: None, carry: seq![] }
    } else {
        frames_failed(frame_status_error(FRAME_TRUNCATED))
    }
}

/// Feeding `x` and then `y` reads what feeding `x ++ y` at once reads: the
/// same frames, the same failure, the same final state.
pub proof fn lemma_frame_feed_split(r: FrameReaderView, x: Seq<u8>, y: Seq<u8>)
    requires
        r.wf(),
    ensures
        ({
            let first = frame_feed_scan(r, x);
            let whole = frame_feed_scan(r, x + y);
            if first.error is Some {
                whole == first
            } else {
                let r1 = frame_after_feed(r, x, first);
                let second = frame_feed_scan(r1, y);
                &&& whole.frames == first.frames + second.frames
                &&& whole.error == second.error
                &&& frame_after_feed(r, x + y, whole) == frame_after_feed(r1, y, second)
            }
        }),
{
    let a = r.carry + x;
    let cs = r.carry_start();
    lemma_frames_scan_concat(a, y, cs);
    assert(r.carry + (x + y) =~= a + y);
    let first = frames_scan(a, cs);
    assert(frame_feed_scan(r, x) == first);
    assert(frame_feed_scan(r, x + y) == frames_scan(a + y, cs));
    if first.error is None {
        let r1 = frame_after_feed(r, x, first);
        assert(r1.carry_start() == (cs + a.len() - first.carry.len()) as nat);
    }
}

/// What feeding chunks one after another yields: the frames of every feed
/// in order, the failure that stopped the feeding (if any), and the
/// reader's state after the last successful feed.
pub ghost struct FrameRun {
    pub frames: Seq<FrameView>,
    pub error: Option<ErrorView>,
    pub state: FrameReaderView,
}

/// Feeding `chunks` in order to a reader in state `r`, stopping at the
/// first failing feed.
pub open spec fn frame_feed_chunks(r: FrameReaderView, chunks: Seq<Seq<u8>>) -> FrameRun
    decreases chunks.len(),
{
    if chunks.len() == 0 {
        FrameRun { frames: seq![], error: None, state: r }
    } else {
        let before = frame_feed_chunks(r, chunks.drop_last());
        if before.error is Some {
            before
        } else {
            let scan = frame_feed_scan(before.state, chunks.last());
            FrameRun {
                frames: before.frames + scan.frames,
                error: scan.error,
                state: frame_after_feed(before.state, chunks.last(), scan),
            }
        }
    }
}

/// Chunk boundaries do not change what a frame stream reads: feeding any
/// chunks one after another fails exactly as feeding their concatenation
/// at once fails, and otherwise yields the same frames in the same order
/// and the same reader state, so finishing agrees too.
pub proof fn lemma_frame_feed_chunks(r: FrameReaderView, chunks: Seq<Seq<u8>>)
    requires
        r.wf(),
    ensures
        ({
            let run = frame_feed_chunks(r, chunks);
            let whole = frame_feed_scan(r, concat_chunks(chunks));
            &&& run.error == whole.error
            &&& run.error is None ==> {
                &&& run.frames == whole.frames
                &&& run.state == frame_after_feed(r, concat_chunks(chunks), whole)
                &&& frame_finish_scan(run.state) == frame_finish_scan(
                    frame_after_feed(r, concat_chunks(chunks), whole),
                )
            }
        }),
    decreases chunks.len(),
{
    if chunks.len() == 0 {
        assert(r.carry + seq![] =~= r.carry);
        if r.carry.len() > 0 {
            lemma_waiting_short(r.carry);
        }
        assert(frame_feed_scan(r, seq![]) == (FrameScan { frames: seq![], error: None, carry: r.carry }));
        assert(frame_after_feed(r, seq![], frame_feed_scan(r, seq![])) == r);
    } else {
        let init = chunks.drop_last();
        let last = chunks.last();
        lemma_frame_feed_chunks(r, init);
        lemma_frame_feed_split(r, concat_chunks(init), last);
    }
}

impl FrameReader {
    pub closed spec fn view(&self) -> FrameReaderView {
        FrameReaderView { carry: self.carry@, stream_pos: self.stream_pos as nat }
    }

    pub fn new() -> (r: Self)
        ensures
            r.view() == (FrameReaderView { carry: seq![], stream_pos: 0 }),
            r.view().wf(),
    {
        FrameReader { carry: Vec::new(), stream_pos: 0 }
    }

    fn to_frame(out: &FrameOut, frame_start: u64) -> (f: Frame)
        requires
            frame_start + out.frame_len <= u64::MAX,
        ensures
            f@ == (FrameView {
                version: out.version as nat,
                kind: out.kind as nat,
                payload: out.payload@,
                byte_start: frame_start as nat,
                byte_end: (frame_start + out.frame_len) as nat,
            }),
    {
        Frame {
            version: out.version,
            kind: out.kind,
            payload: out.payload.clone(),
            byte_start: frame_start,
            byte_end: frame_start + out.frame_len as u64,
        }
    }

    /// Records the frame a step produced, or reports the refusal.
    fn drain_status(&mut self, out: &FrameOut, frame_start: u64, frames: &mut Vec<Frame>) -> (r:
        Result<(), IngestError>)
        requires
            frame_start + out.frame_len <= u64::MAX,
        ensures
            *final(self) == *old(self),
            out.status == FRAME_PRODUCED ==> r is Ok && frames_view(final(frames)@) == frames_view(
                old(frames)@,
            ).push(
                FrameView {
                    version: out.version as nat,
                    kind: out.kind as nat,
                    payload: out.payload@,
                    byte_start: frame_start as nat,
                    byte_end: (frame_start + out.frame_len) as nat,
                },
            ),
            out.status == FRAME_NEED_MORE ==> r is Ok && final(frames)@ == old(frames)@,
            (out.status != FRAME_PRODUCED && out.status != FRAME_NEED_MORE) ==> (r matches Err(e)
                && e@ == frame_status_error(out.status)),
    {
        if out.status == FRAME_PRODUCED {
            let f = Self::to_frame(out, frame_start);
            let ghost fv = f@;
            let ghost before = frames@;
            frames.push(f);
            assert(frames_view(frames@) =~= frames_view(before).push(fv));
            Ok(())
        } else if out.status == FRAME_NEED_MORE {
            Ok(())
        } else {
            Err(frame_status(out.status))
        }
    }

    /// One frame step over the carry and `view`; `rest` stands for the bytes
    /// that follow `view`. Returns the step's status and how many view bytes
    /// it took.
    fn step_frame(
        &mut self,
        rt: &LanguageRuntime,
        view: &[u8],
        Ghost(rest): Ghost<Seq<u8>>,
        frames: &mut Vec<Frame>,
    ) -> (r: Result<(i64, usize), IngestError>)
        requires
            old(self).carry@.len() <= FRAME_CARRY_BYTES,
            old(self).carry@.len() <= old(self).stream_pos,
            old(self).stream_pos + view@.len() <= u64::MAX,
            view@.len() > 0 ==> old(self).carry@.len() == 0 || frame_waiting(old(self).carry@),
        ensures
            ({
                let before = frames_scan(old(self).carry@ + view@ + rest, old(self).view().carry_start());
                match r {
                    Ok((status, consumed)) => {
                        let after = frames_scan(
                            final(self).carry@ + view@.skip(consumed as int) + rest,
                            final(self).view().carry_start(),
                        );
                        &&& consumed <= view@.len()
                        &&& final(self).carry@.len() <= FRAME_CARRY_BYTES
                        &&& final(self).carry@.len() <= final(self).stream_pos
                        &&& final(self).stream_pos == old(self).stream_pos + consumed
                        &&& frames_view(old(frames)@) + before.frames == frames_view(final(frames)@)
                            + after.frames
                        &&& before.error == after.error
                        &&& before.carry == after.carry
                        &&& (status == FRAME_PRODUCED || status == FRAME_NEED_MORE)
                        &&& status == FRAME_NEED_MORE ==> consumed == view@.len() && (
                        final(self).carry@.len() == 0 || frame_waiting(final(self).carry@))
                        &&& status == FRAME_PRODUCED ==> (view@.len() > 0 ==> consumed > 0) && (
                        view@.len() == 0 ==> final(self).carry@.len() < old(self).carry@.len())
                    },
                    Err(e) => before.error == Some(e@),
                }
            }),
    {
        let ghost old_frames = frames@;
        let ghost carry0 = self.carry@;
        let ghost pos = self.view().carry_start();
        let carry_before = self.carry.len();
        let frame_start: u64 = self.stream_pos - carry_before as u64;
        let out = match rt.decode_frame(self.carry.as_slice(), view, false) {
            Ok(out) => out,
            Err(e) => return Err(e),
        };
        proof {
            lemma_frame_step_scan(carry0, view@, rest, pos);
        }
        let consumed = out.consumed;
        self.drain_status(&out, frame_start, frames)?;
        self.carry = out.carry;
        self.stream_pos = self.stream_pos + consumed as u64;
        proof {
            if out.status == FRAME_PRODUCED {
                let next = frames_scan(self.carry@ + view@.skip(consumed as int) + rest, self.view().carry_start());
                assert(frames_view(old_frames) + (seq![frames_view(frames@).last()] + next.frames)
                    =~= frames_view(frames@) + next.frames);
            } else {
                assert(self.carry@ + view@.skip(consumed as int) + rest =~= carry0 + view@ + rest);
            }
        }
        Ok((out.status, consumed))
    }

    /// Re-enter with an empty view while the carry still produces frames.
    fn drain_carry(
        &mut self,
        rt: &LanguageRuntime,
        Ghost(rest): Ghost<Seq<u8>>,
        frames: &mut Vec<Frame>,
    ) -> (r: Result<(), IngestError>)
        requires
            old(self).carry@.len() <= FRAME_CARRY_BYTES,
            old(self).carry@.len() <= old(self).stream_pos,
        ensures
            ({
                let before = frames_scan(old(self).carry@ + rest, old(self).view().carry_start());
                match r {
                    Ok(_) => {
                        let after = frames_scan(final(self).carry@ + rest, final(self).view().carry_start());
                        &&& final(self).view().wf()
                        &&& final(self).stream_pos == old(self).stream_pos
                        &&& frames_view(old(frames)@) + before.frames == frames_view(final(frames)@)
                            + after.frames
                        &&& before.error == after.error
                        &&& before.carry == after.carry
                    },
                    Err(e) => before.error == Some(e@),
                }
            }),
    {
        let empty: [u8; 0] = [];
        let ghost whole = frames_scan(self.carry@ + rest, self.view().carry_start());
        let ghost pos0 = self.stream_pos;
        let ghost recs0 = frames_view(frames@);
        assert(empty@.skip(0) =~= empty@);
        loop
            invariant
                whole == frames_scan(old(self).carry@ + rest, old(self).view().carry_start()),
                recs0 == frames_view(old(frames)@),
                pos0 == old(self).stream_pos,
                empty@.len() == 0,
                empty@.skip(0) == empty@,
                self.carry@.len() <= FRAME_CARRY_BYTES,
                self.carry@.len() <= self.stream_pos,
                self.stream_pos == pos0,
                ({
                    let now = frames_scan(self.carry@ + rest, self.view().carry_start());
                    &&& recs0 + whole.frames == frames_view(frames@) + now.frames
                    &&& whole.error == now.error
                    &&& whole.carry == now.carry
                }),
            decreases self.carry@.len(),
        {
            if self.carry.len() == 0 {
                return Ok(());
            }
            proof {
                assert(self.carry@ + empty@ + rest =~= self.carry@ + rest);
            }
            let (status, _consumed) = self.step_frame(rt, &empty, Ghost(rest), frames)?;
            proof {
                assert(self.carry@ + empty@.skip(0) + rest =~= self.carry@ + rest);
            }
            if status == FRAME_NEED_MORE {
                return Ok(());
            }
        }
    }

    /// Feed one chunk (any size); returns frames completed, in order.
    pub fn feed(&mut self, rt: &LanguageRuntime, chunk: &[u8]) -> (r: Result<Vec<Frame>, IngestError>)
        requires
            old(self).view().wf(),
            old(self).view().stream_pos + chunk@.len() <= u64::MAX,
        ensures
            ({
                let scan = frame_feed_scan(old(self).view(), chunk@);
                match r {
                    Ok(frames) => {
                        &&& final(self).view().wf()
                        &&& scan.error is None
                        &&& frames_view(frames@) == scan.frames
                        &&& final(self).view() == frame_after_feed(old(self).view(), chunk@, scan)
                    },
                    Err(e) => scan.error == Some(e@),
                }
            }),
    {
        let ghost whole = frame_feed_scan(self.view(), chunk@);
        let ghost pos0 = self.stream_pos;
        let mut frames: Vec<Frame> = Vec::new();
        let mut off: usize = 0;
        assert(chunk@.skip(0) =~= chunk@);
        assert(frames_view(frames@) + whole.frames =~= whole.frames);
        while off < chunk.len()
            invariant
                whole == frame_feed_scan(old(self).view(), chunk@),
                pos0 == old(self).stream_pos,
                self.view().wf(),
                off <= chunk@.len(),
                self.stream_pos == pos0 + off,
                pos0 + chunk@.len() <= u64::MAX,
                ({
                    let now = frames_scan(
                        self.carry@ + chunk@.skip(off as int),
                        self.view().carry_start(),
                    );
                    &&& whole.frames == frames_view(frames@) + now.frames
                    &&& whole.error == now.error
                    &&& whole.carry == now.carry
                }),
            decreases chunk@.len() - off,
        {
            let end: usize = if chunk.len() - off > VIEW_BYTES {
                off + VIEW_BYTES
            } else {
                chunk.len()
            };
            let view = &chunk[off..end];
            let ghost rest = chunk@.skip(end as int);
            proof {
                assert(view@ =~= chunk@.subrange(off as int, end as int));
                assert(self.carry@ + chunk@.skip(off as int) =~= self.carry@ + view@ + rest);
                lemma_waiting_short(self.carry@);
            }
            let (status, consumed) = self.step_frame(rt, view, Ghost(rest), &mut frames)?;
            proof {
                assert(view@.skip(consumed as int) + rest =~= chunk@.skip(off + consumed));
                assert(self.carry@ + view@.skip(consumed as int) + rest =~= self.carry@ + chunk@.skip(
                    off + consumed,
                ));
            }
            off = off + consumed;
            self.drain_carry(rt, Ghost(chunk@.skip(off as int)), &mut frames)?;
        }
        proof {
            assert(chunk@.skip(off as int) =~= seq![]);
            assert(self.carry@ + seq![] =~= self.carry@);
            assert(frames_view(frames@) + seq![] =~= frames_view(frames@));
        }
        Ok(frames)
    }

    /// End of input: complete cleanly or report truncation.
    pub fn finish(&mut self, rt: &LanguageRuntime) -> (r: Result<Vec<Frame>, IngestError>)
        requires
            old(self).view().wf(),
        ensures
            ({
                let scan = frame_finish_scan(old(self).view());
                match r {
                    Ok(frames) => {
                        &&& scan.error is None
                        &&& frames_view(frames@) == scan.frames
                        &&& final(self).view() == frame_after_feed(old(self).view(), seq![], scan)
                        &&& final(self).view().wf()
                    },
                    Err(e) => scan.error == Some(e@),
                }
            }),
    {
        let empty: [u8; 0] = [];
        let mut frames: Vec<Frame> = Vec::new();
        proof {
            assert(self.carry@ + empty@ =~= self.carry@);
            if self.carry@.len() > 0 {
                lemma_waiting_short(self.carry@);
            }
        }
        let carry_before = self.carry.len();
        let frame_start: u64 = self.stream_pos - carry_before as u64;
        let out = match rt.decode_frame(self.carry.as_slice(), &empty, true) {
            Ok(out) => out,
            Err(e) => return Err(e),
        };
        self.carry = out.carry;
        self.stream_pos = self.stream_pos + out.consumed as u64;
        if out.status == FRAME_COMPLETE {
            assert(frames_view(frames@) =~= seq![]);
            Ok(frames)
        } else {
            Err(frame_status(out.status))
        }
    }
}

impl Default for FrameReader {
    fn default() -> (r: Self)
        ensures
            r.view() == (FrameReaderView { carry: seq![], stream_pos: 0 }),
    {
        FrameReader::new()
    }
}

// ----- encoding ----------------------------------------------------------

/// Header and payload of a frame.
pub open spec fn frame_body(version: u8, kind: u8, payload: Seq<u8>) -> Seq<u8> {
    seq![
        MAGIC_LO,
        MAGIC_HI,
        version,
        kind,
        (payload.len() % 256) as u8,
        (payload.len() / 256) as u8,
    ] + payload
}

/// The encoding of one frame: header, payload, little-endian checksum.
pub open spec fn encoded_frame(version: u8, kind: u8, payload: Seq<u8>) -> Seq<u8> {
    let body = frame_body(version, kind, payload);
    let sum = byte_sum(body) % 65536;
    body + seq![(sum % 256) as u8, (sum / 256) as u8]
}

/// Encode one frame.
pub fn encode_frame(version: u8, kind: u8, payload: &[u8]) -> (r: Vec<u8>)
    requires
        payload@.len() <= MAX_PAYLOAD_BYTES,
    ensures
        r@ == encoded_frame(version, kind, payload@),
{
    let n = payload.len();
    let mut frame: Vec<u8> = vec![MAGIC_LO, MAGIC_HI, version, kind];
    frame.push((n % 256) as u8);
    frame.push((n / 256) as u8);
    let mut i: usize = 0;
    while i < n
        invariant
            n == payload@.len() <= MAX_PAYLOAD_BYTES,
            i <= n,
            frame@ == seq![
                MAGIC_LO,
                MAGIC_HI,
                version,
                kind,
                (n % 256) as u8,
                (n / 256) as u8,
            ] + payload@.take(i as int),
        decreases n - i,
    {
        frame.push(payload[i]);
        assert(payload@.take(i + 1) =~= payload@.take(i as int).push(payload@[i as int]));
        i += 1;
    }
    assert(payload@.take(n as int) =~= payload@);
    let ghost body = frame@;
    assert(frame@.take(frame@.len() as int) =~= body);
    let total = sum_bytes(frame.as_slice(), HEADER_BYTES + n);
    let sum = total % 65536;
    frame.push((sum % 256) as u8);
    frame.push((sum / 256) as u8);
    assert(frame@ =~= body + seq![(sum % 256) as u8, (sum / 256) as u8]);
    frame
}

/// A frame of version 1 with a known kind tag and a payload within bound
/// decodes back to itself, whatever follows it; any other version or kind
/// tag is refused as unsupported.
pub proof fn lemma_encoded_frame_decodes(version: u8, kind: u8, payload: Seq<u8>, rest: Seq<u8>, pos: nat)
    requires
        payload.len() <= MAX_PAYLOAD_BYTES,
    ensures
        ({
            let n = payload.len();
            let scan = frames_scan(encoded_frame(version, kind, payload) + rest, pos);
            let next = frames_scan(rest, (pos + FRAME_OVERHEAD + n) as nat);
            if version != 1 {
                scan == frames_failed(frame_status_error(FRAME_BAD_VERSION))
            } else if kind > 2 {
                scan == frames_failed(frame_status_error(FRAME_BAD_KIND))
            } else {
                scan == FrameScan {
                    frames: seq![FrameView {
                        version: 1,
                        kind: kind as nat,
                        payload,
                        byte_start: pos,
                        byte_end: (pos + FRAME_OVERHEAD + n) as nat,
                    }] + next.frames,
                    error: next.error,
                    carry: next.carry,
                }
            }
        }),
{
    let n = payload.len();
    let body = frame_body(version, kind, payload);
    let sum = byte_sum(body) % 65536;
    let e = encoded_frame(version, kind, payload);
    let s = e + rest;
    assert(s[0] == MAGIC_LO && s[1] == MAGIC_HI && s[2] == version && s[3] == kind);
    assert(s[4] == (n % 256) as u8 && s[5] == (n / 256) as u8);
    assert(declared_len(s) == n);
    assert(s.len() >= FRAME_OVERHEAD + n);
    assert(s.take(HEADER_BYTES + n) =~= body);
    assert(s[HEADER_BYTES + n] == (sum % 256) as u8);
    assert(s[HEADER_BYTES + n + 1] == (sum / 256) as u8);
    assert(le16(s, HEADER_BYTES + n) == sum);
    assert(s.subrange(HEADER_BYTES as int, HEADER_BYTES + n) =~= payload);
    assert(s.skip(FRAME_OVERHEAD + n) =~= rest);
}

/// A proper prefix of a sound frame is never refused: mid-stream it waits
/// for more bytes, and at end of input it is truncated.
pub proof fn lemma_frame_prefix_waits(kind: u8, payload: Seq<u8>, k: int, pos: nat)
    requires
        kind <= 2,
        payload.len() <= MAX_PAYLOAD_BYTES,
        0 < k < encoded_frame(1, kind, payload).len(),
    ensures
        ({
            let prefix = encoded_frame(1, kind, payload).take(k);
            &&& frames_scan(prefix, pos) == (FrameScan {
                frames: seq![],
                error: None,
                carry: prefix,
            })
            &&& frame_finish_scan(FrameReaderView { carry: prefix, stream_pos: (pos + k) as nat })
                == frames_failed(frame_status_error(FRAME_TRUNCATED))
        }),
{
    let e = encoded_frame(1, kind, payload);
    let prefix = e.take(k);
    let n = payload.len();
    if k >= HEADER_BYTES {
        assert(prefix[0] == MAGIC_LO && prefix[1] == MAGIC_HI && prefix[2] == 1 && prefix[3] == kind);
        assert(prefix[4] == (n % 256) as u8 && prefix[5] == (n / 256) as u8);
        assert(declared_len(prefix) == n);
    }
}

/// The encodings of version-1 frames, one after another, each item a kind
/// tag and a payload.
pub open spec fn encoded_stream(items: Seq<(u8, Seq<u8>)>) -> Seq<u8>
    decreases items.len(),
{
    if items.len() == 0 {
        seq![]
    } else {
        encoded_frame(1, items[0].0, items[0].1) + encoded_stream(items.drop_first())
    }
}

/// The frames that `items` encode, the first one standing at stream
/// position `pos` and each next one right after the previous.
pub open spec fn stream_frames(items: Seq<(u8, Seq<u8>)>, pos: nat) -> Seq<FrameView>
    decreases items.len(),
{
    if items.len() == 0 {
        seq![]
    } else {
        let n = items[0].1.len();
        seq![FrameView {
            version: 1,
            kind: items[0].0 as nat,
            payload: items[0].1,
            byte_start: pos,
            byte_end: (pos + FRAME_OVERHEAD + n) as nat,
        }] + stream_frames(items.drop_first(), (pos + FRAME_OVERHEAD + n) as nat)
    }
}

/// Frames of a known kind with payloads within bound.
pub open spec fn encodable_items(items: Seq<(u8, Seq<u8>)>) -> bool {
    forall|i: int|
        0 <= i < items.len() ==> #[trigger] items[i].0 <= 2 && items[i].1.len() <= MAX_PAYLOAD_BYTES
}

/// Encoded frames, one after another, read back as themselves with
/// nothing left over.
pub proof fn lemma_encoded_stream_decodes(items: Seq<(u8, Seq<u8>)>, pos: nat)
    requires
        encodable_items(items),
    ensures
        frames_scan(encoded_stream(items), pos) == (FrameScan {
            frames: stream_frames(items, pos),
            error: None,
            carry: seq![],
        }),
    decreases items.len(),
{
    if items.len() > 0 {
        let tail = items.drop_first();
        assert(items[0].0 <= 2 && items[0].1.len() <= MAX_PAYLOAD_BYTES);
        assert forall|i: int| 0 <= i < tail.len() implies #[trigger] tail[i].0 <= 2 && tail[i].1.len()
            <= MAX_PAYLOAD_BYTES by {
            assert(tail[i] == items[i + 1]);
        }
        let n = items[0].1.len();
        lemma_encoded_stream_decodes(tail, (pos + FRAME_OVERHEAD + n) as nat);
        lemma_encoded_frame_decodes(1, items[0].0, items[0].1, encoded_stream(tail), pos);
    }
}

/// Decoding inverts encoding however the stream is chunked: feeding any
/// chunks of a run of encoded frames to a fresh reader fails nowhere,
/// yields exactly those frames (version 1, their kinds and payloads, the
/// first at byte 0 and each next one right after the previous), and
/// finishing reports no truncation.
pub proof fn lemma_chunked_frames_round_trip(items: Seq<(u8, Seq<u8>)>, chunks: Seq<Seq<u8>>)
    requires
        encodable_items(items),
        concat_chunks(chunks) == encoded_stream(items),
    ensures
        ({
            let fresh = FrameReaderView { carry: seq![], stream_pos: 0 };
            let run = frame_feed_chunks(fresh, chunks);
            &&& run.error is None
            &&& run.frames == stream_frames(items, 0)
            &&& frame_finish_scan(run.state) == (FrameScan { frames: seq![], error: None, carry: seq![] })
        }),
{
    let fresh = FrameReaderView { carry: seq![], stream_pos: 0 };
    lemma_frame_feed_chunks(fresh, chunks);
    lemma_encoded_stream_decodes(items, 0);
    assert(seq![] + concat_chunks(chunks) =~= encoded_stream(items));
}

} // verus!
