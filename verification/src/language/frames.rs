//! The frame step of binary telemetry streams: one chunk view in, at most
//! one frame plus the carry out.
//!
//! Frame v1, little-endian: magic `0x4D43` (bytes `0x43 0x4D`), version
//! (only 1), kind tag (0 sensor, 1 event, 2 heartbeat), `u16` payload
//! length (0..=128), payload, `u16` checksum (byte sum of everything before
//! it, mod 65536). No header decision is taken before all six header bytes
//! are staged; a short header or body mid-stream asks for more, and the
//! same bytes at end of input are truncated.

use vstd::prelude::*;

use crate::error::IngestError;
use crate::language::{FrameOut, LanguageRuntime};
use crate::text::concat_bytes;

verus! {

pub const FRAME_PRODUCED: i64 = 0;
pub const FRAME_NEED_MORE: i64 = 1;
pub const FRAME_COMPLETE: i64 = 2;
pub const FRAME_BAD_HEADER: i64 = 3;
pub const FRAME_BAD_CHECKSUM: i64 = 4;
pub const FRAME_TRUNCATED: i64 = 5;
pub const FRAME_BAD_VERSION: i64 = 6;
pub const FRAME_BAD_KIND: i64 = 7;

pub const MAGIC_LO: u8 = 0x43;
pub const MAGIC_HI: u8 = 0x4D;
pub const FRAME_VERSION: u8 = 1;
pub const FRAME_MAX_KIND: u8 = 2;
pub const HEADER_BYTES: usize = 6;
/// Header plus checksum.
pub const FRAME_OVERHEAD: usize = 8;
pub const PAYLOAD_LIMIT: usize = 128;
/// Capacity of the frame carry: one frame of the largest size.
pub const FRAME_CARRY_BYTES: usize = 136;

/// Sum of the bytes of `s`.
pub open spec fn byte_sum(s: Seq<u8>) -> nat
    decreases s.len(),
{
    if s.len() == 0 {
        0
    } else {
        byte_sum(s.drop_last()) + s.last() as nat
    }
}

/// The little-endian `u16` at `s[at..at + 2]`.
pub open spec fn le16(s: Seq<u8>, at: int) -> nat {
    (s[at] + 256 * s[at + 1]) as nat
}

/// Declared payload length of a staged header.
pub open spec fn declared_len(s: Seq<u8>) -> nat {
    le16(s, 4)
}

/// Verdict on the six header bytes of `s`: magic, then version, then kind
/// tag, then the payload bound.
pub open spec fn header_verdict(s: Seq<u8>) -> i64 {
    if s[0] != MAGIC_LO || s[1] != MAGIC_HI {
        FRAME_BAD_HEADER
    } else if s[2] != FRAME_VERSION {
        FRAME_BAD_VERSION
    } else if s[3] > FRAME_MAX_KIND {
        FRAME_BAD_KIND
    } else if declared_len(s) > PAYLOAD_LIMIT {
        FRAME_BAD_HEADER
    } else {
        FRAME_PRODUCED
    }
}

/// Whether the frame at the front of `s` (all of it staged) carries the
/// right checksum.
pub open spec fn checksum_ok(s: Seq<u8>) -> bool {
    let n = declared_len(s) as int;
    byte_sum(s.take(HEADER_BYTES + n)) % 65536 == le16(s, HEADER_BYTES + n)
}

/// `s` is the front of a frame that is not yet fully staged, with nothing
/// wrong in it so far.
pub open spec fn frame_waiting(s: Seq<u8>) -> bool {
    s.len() < HEADER_BYTES || (header_verdict(s) == FRAME_PRODUCED && s.len() < FRAME_OVERHEAD
        + declared_len(s))
}

/// The outcome of one frame step.
pub ghost struct FrameStep {
    pub status: i64,
    pub version: nat,
    pub kind: nat,
    pub payload: Seq<u8>,
    pub frame_len: nat,
    pub carry: Seq<u8>,
    pub consumed: nat,
}

/// A step that produces no frame.
pub open spec fn frame_idle(status: i64, carry: Seq<u8>, consumed: nat) -> FrameStep {
    FrameStep { status, version: 0, kind: 0, payload: seq![], frame_len: 0, carry, consumed }
}

/// One frame step over `carry ++ view`. A produced frame leaves the bytes
/// after it in the carry, as many as the carry holds; `consumed` counts the
/// view bytes taken.
pub open spec fn frame_step(carry: Seq<u8>, view: Seq<u8>, eof: bool) -> FrameStep {
    let staged = carry + view;
    if staged.len() == 0 {
        frame_idle(if eof { FRAME_COMPLETE } else { FRAME_NEED_MORE }, seq![], 0)
    } else if frame_waiting(staged) {
        if eof {
            frame_idle(FRAME_TRUNCATED, carry, 0)
        } else {
            frame_idle(FRAME_NEED_MORE, staged, view.len())
        }
    } else if header_verdict(staged) != FRAME_PRODUCED {
        frame_idle(header_verdict(staged), carry, 0)
    } else if !checksum_ok(staged) {
        frame_idle(FRAME_BAD_CHECKSUM, carry, 0)
    } else {
        let n = declared_len(staged) as int;
        let rest = staged.skip(FRAME_OVERHEAD + n);
        let keep = if rest.len() > FRAME_CARRY_BYTES {
            FRAME_CARRY_BYTES as int
        } else {
            rest.len() as int
        };
        FrameStep {
            status: FRAME_PRODUCED,
            version: staged[2] as nat,
            kind: staged[3] as nat,
            payload: staged.subrange(HEADER_BYTES as int, HEADER_BYTES + n),
            frame_len: (FRAME_OVERHEAD + n) as nat,
            carry: rest.take(keep),
            consumed: (FRAME_OVERHEAD + n + keep - carry.len()) as nat,
        }
    }
}

impl FrameOut {
    /// This verdict carries exactly `step`.
    pub open spec fn describes(&self, step: FrameStep) -> bool {
        &&& self.status == step.status
        &&& self.version == step.version
        &&& self.kind == step.kind
        &&& self.payload@ == step.payload
        &&& self.payload_len == self.payload@.len()
        &&& self.frame_len == step.frame_len
        &&& self.carry@ == step.carry
        &&& self.carry_len == self.carry@.len()
        &&& self.consumed == step.consumed
    }
}

/// Sum of `s[..end]`.
pub fn sum_bytes(s: &[u8], end: usize) -> (r: u32)
    requires
        end <= s@.len(),
        end <= HEADER_BYTES + PAYLOAD_LIMIT,
    ensures
        r == byte_sum(s@.take(end as int)),
{
    let mut total: u32 = 0;
    let mut i: usize = 0;
    while i < end
        invariant
            i <= end <= s@.len(),
            end <= HEADER_BYTES + PAYLOAD_LIMIT,
            total == byte_sum(s@.take(i as int)),
            total <= 255 * i,
        decreases end - i,
    {
        proof {
            assert(s@.take(i + 1).drop_last() =~= s@.take(i as int));
        }
        total = total + s[i] as u32;
        i += 1;
    }
    total
}

fn frame_refused(status: i64, carry: &[u8]) -> (out: FrameOut)
    ensures
        out.describes(frame_idle(status, carry@, 0)),
{
    FrameOut {
        status,
        version: 0,
        kind: 0,
        payload: Vec::new(),
        payload_len: 0,
        frame_len: 0,
        carry: vstd::slice::slice_to_vec(carry),
        carry_len: carry.len(),
        consumed: 0,
    }
}

/// The verdict on the header bytes of `s`.
fn check_header(s: &[u8]) -> (r: i64)
    requires
        s@.len() >= HEADER_BYTES,
    ensures
        r == header_verdict(s@),
{
    let n: u64 = s[4] as u64 + 256 * (s[5] as u64);
    if s[0] != MAGIC_LO || s[1] != MAGIC_HI {
        FRAME_BAD_HEADER
    } else if s[2] != FRAME_VERSION {
        FRAME_BAD_VERSION
    } else if s[3] > FRAME_MAX_KIND {
        FRAME_BAD_KIND
    } else if n > PAYLOAD_LIMIT as u64 {
        FRAME_BAD_HEADER
    } else {
        FRAME_PRODUCED
    }
}

impl LanguageRuntime {
    /// Streaming binary-frame step: stage carry plus one chunk view.
    pub fn decode_frame(&self, carry: &[u8], view: &[u8], eof: bool) -> (r: Result<FrameOut, IngestError>)
        requires
            carry@.len() <= FRAME_CARRY_BYTES,
        ensures
            r matches Ok(out) && out.describes(frame_step(carry@, view@, eof)),
    {
        let staged = concat_bytes(carry, view);
        let ghost s = staged@;
        let len = staged.len();
        if len == 0 {
            let status = if eof {
                FRAME_COMPLETE
            } else {
                FRAME_NEED_MORE
            };
            return Ok(
                FrameOut {
                    status,
                    version: 0,
                    kind: 0,
                    payload: Vec::new(),
                    payload_len: 0,
                    frame_len: 0,
                    carry: Vec::new(),
                    carry_len: 0,
                    consumed: 0,
                },
            );
        }
        let waiting = if len < HEADER_BYTES {
            true
        } else {
            let header = check_header(staged.as_slice());
            let n: usize = staged[4] as usize + 256 * (staged[5] as usize);
            header == FRAME_PRODUCED && len < FRAME_OVERHEAD + n
        };
        if waiting {
            if eof {
                return Ok(frame_refused(FRAME_TRUNCATED, carry));
            }
            return Ok(
                FrameOut {
                    status: FRAME_NEED_MORE,
                    version: 0,
                    kind: 0,
                    payload: Vec::new(),
                    payload_len: 0,
                    frame_len: 0,
                    carry: staged,
                    carry_len: len,
                    consumed: view.len(),
                },
            );
        }
        let header = check_header(staged.as_slice());
        if header != FRAME_PRODUCED {
            return Ok(frame_refused(header, carry));
        }
        let n: usize = staged[4] as usize + 256 * (staged[5] as usize);
        let total = sum_bytes(staged.as_slice(), HEADER_BYTES + n);
        let declared: u32 = staged[HEADER_BYTES + n] as u32 + 256 * (staged[HEADER_BYTES + n + 1] as u32);
        if total % 65536 != declared {
            return Ok(frame_refused(FRAME_BAD_CHECKSUM, carry));
        }
        let frame_len: usize = FRAME_OVERHEAD + n;
        let rest_len: usize = len - frame_len;
        let keep: usize = if rest_len > FRAME_CARRY_BYTES {
            FRAME_CARRY_BYTES
        } else {
            rest_len
        };
        let payload = vstd::slice::slice_to_vec(&staged.as_slice()[HEADER_BYTES..HEADER_BYTES + n]);
        let next = vstd::slice::slice_to_vec(&staged.as_slice()[frame_len..frame_len + keep]);
        assert(next@ =~= s.skip(frame_len as int).take(keep as int));
        Ok(
            FrameOut {
                status: FRAME_PRODUCED,
                version: staged[2] as u64,
                kind: staged[3] as u64,
                payload,
                payload_len: n,
                frame_len,
                carry: next,
                carry_len: keep,
                consumed: frame_len + keep - carry.len(),
            },
        )
    }
}

} // verus!
