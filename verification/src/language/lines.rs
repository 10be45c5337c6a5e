//! The line step of delimited-record streams: one chunk view in, at most
//! one line plus the carry out.
//!
//! Staging is `carry ++ view`. A line ends at the first `\n`; one trailing
//! `\r` before it is stripped. A line whose body exceeds 255 bytes is
//! overlong; a body that still holds a `\r` is malformed. Without a
//! newline the staged bytes wait in the carry (at most 256 of them) until
//! more input arrives or the stream ends.

use vstd::prelude::*;

use crate::error::IngestError;
use crate::language::{LanguageRuntime, LineOut};
use crate::text::concat_bytes;

verus! {

/// A line was produced.
pub const LINE_PRODUCED: i64 = 0;
/// No full line yet: the staged bytes are carried.
pub const LINE_NEED_MORE: i64 = 1;
/// End of input with nothing staged.
pub const LINE_COMPLETE: i64 = 2;
/// The line holds a stray carriage return.
pub const LINE_MALFORMED: i64 = 3;
/// The line exceeds its byte bound.
pub const LINE_OVERLONG: i64 = 4;

/// Capacity of the line carry, in bytes.
pub const LINE_CARRY_BYTES: usize = 256;
/// Bound on the body of one line, in bytes.
pub const LINE_BODY_BYTES: usize = 255;

pub const NEWLINE: u8 = 10;
pub const CARRIAGE_RETURN: u8 = 13;

/// Index of the first newline at or after `k`, or `s.len()` when there is
/// none.
pub open spec fn newline_from(s: Seq<u8>, k: int) -> int
    decreases s.len() - k,
{
    if k >= s.len() {
        s.len() as int
    } else if s[k] == NEWLINE {
        k
    } else {
        newline_from(s, k + 1)
    }
}

/// Index of the first newline of `s`, or `s.len()` when it holds none.
pub open spec fn first_newline(s: Seq<u8>) -> int {
    newline_from(s, 0)
}

pub proof fn lemma_newline_from(s: Seq<u8>, k: int)
    requires
        0 <= k <= s.len(),
    ensures
        k <= newline_from(s, k) <= s.len(),
        forall|j: int| k <= j < newline_from(s, k) ==> s[j] != NEWLINE,
        newline_from(s, k) < s.len() ==> s[newline_from(s, k)] == NEWLINE,
    decreases s.len() - k,
{
    if k < s.len() && s[k] != NEWLINE {
        lemma_newline_from(s, k + 1);
    }
}

/// What characterises the first newline of `s`.
pub proof fn lemma_first_newline(s: Seq<u8>)
    ensures
        0 <= first_newline(s) <= s.len(),
        forall|j: int| 0 <= j < first_newline(s) ==> s[j] != NEWLINE,
        first_newline(s) < s.len() ==> s[first_newline(s)] == NEWLINE,
{
    lemma_newline_from(s, 0);
}

/// Any index with the characterising properties is the first newline.
pub proof fn lemma_first_newline_unique(s: Seq<u8>, r: int)
    requires
        0 <= r <= s.len(),
        forall|j: int| 0 <= j < r ==> s[j] != NEWLINE,
        r < s.len() ==> s[r] == NEWLINE,
    ensures
        first_newline(s) == r,
{
    lemma_first_newline(s);
    let f = first_newline(s);
    if f < r {
        assert(s[f] == NEWLINE);
    } else if r < f {
        assert(s[r] != NEWLINE);
    }
}

/// The first newline of a concatenation.
pub proof fn lemma_first_newline_concat(a: Seq<u8>, b: Seq<u8>)
    ensures
        first_newline(a + b) == if first_newline(a) < a.len() {
            first_newline(a)
        } else {
            a.len() + first_newline(b)
        },
{
    lemma_first_newline(a);
    lemma_first_newline(b);
    let ab = a + b;
    if first_newline(a) < a.len() {
        let r = first_newline(a);
        assert forall|j: int| 0 <= j < r implies ab[j] != NEWLINE by {
            assert(ab[j] == a[j]);
        }
        lemma_first_newline_unique(ab, r);
    } else {
        let r = a.len() + first_newline(b);
        assert forall|j: int| 0 <= j < r implies ab[j] != NEWLINE by {
            if j < a.len() {
                assert(ab[j] == a[j]);
            } else {
                assert(ab[j] == b[j - a.len()]);
            }
        }
        if r < ab.len() {
            assert(ab[r] == b[first_newline(b)]);
        }
        lemma_first_newline_unique(ab, r);
    }
}

/// `s` holds no newline.
pub open spec fn newline_free(s: Seq<u8>) -> bool {
    forall|j: int| 0 <= j < s.len() ==> s[j] != NEWLINE
}

pub proof fn lemma_newline_free(s: Seq<u8>)
    ensures
        newline_free(s) <==> first_newline(s) == s.len(),
{
    lemma_first_newline(s);
    if newline_free(s) {
        lemma_first_newline_unique(s, s.len() as int);
    }
}

/// `raw` without one trailing carriage return.
pub open spec fn strip_cr(raw: Seq<u8>) -> Seq<u8> {
    if raw.len() > 0 && raw.last() == CARRIAGE_RETURN {
        raw.drop_last()
    } else {
        raw
    }
}

/// Verdict on the body of one line: overlong before malformed.
pub open spec fn line_verdict(body: Seq<u8>) -> i64 {
    if body.len() > LINE_BODY_BYTES {
        LINE_OVERLONG
    } else if body.contains(CARRIAGE_RETURN) {
        LINE_MALFORMED
    } else {
        LINE_PRODUCED
    }
}

/// The outcome of one line step.
pub ghost struct LineStep {
    pub status: i64,
    pub line: Seq<u8>,
    pub carry: Seq<u8>,
    pub consumed: nat,
}

/// A refusal: nothing is produced or consumed and the carry stays.
pub open spec fn line_refused(status: i64, carry: Seq<u8>) -> LineStep {
    LineStep { status, line: seq![], carry, consumed: 0 }
}

/// One line step over `carry ++ view`.
///
/// A produced line leaves the bytes after its newline in the carry, as many
/// as the carry holds; `consumed` counts the view bytes taken, so that when
/// the tail exceeds the carry the view cursor stops short and no byte is
/// dropped.
pub open spec fn line_step(carry: Seq<u8>, view: Seq<u8>, eof: bool) -> LineStep {
    let staged = carry + view;
    let i = first_newline(staged);
    if i < staged.len() {
        let body = strip_cr(staged.take(i));
        let verdict = line_verdict(body);
        if verdict != LINE_PRODUCED {
            line_refused(verdict, carry)
        } else {
            let rest = staged.skip(i + 1);
            let keep = if rest.len() > LINE_CARRY_BYTES {
                LINE_CARRY_BYTES as int
            } else {
                rest.len() as int
            };
            LineStep {
                status: LINE_PRODUCED,
                line: body,
                carry: rest.take(keep),
                consumed: (i + 1 + keep - carry.len()) as nat,
            }
        }
    } else if eof {
        if staged.len() == 0 {
            LineStep { status: LINE_COMPLETE, line: seq![], carry: seq![], consumed: 0 }
        } else if line_verdict(staged) != LINE_PRODUCED {
            line_refused(line_verdict(staged), carry)
        } else {
            LineStep { status: LINE_PRODUCED, line: staged, carry: seq![], consumed: view.len() }
        }
    } else if staged.len() > LINE_CARRY_BYTES {
        line_refused(LINE_OVERLONG, carry)
    } else {
        LineStep { status: LINE_NEED_MORE, line: seq![], carry: staged, consumed: view.len() }
    }
}

impl LineOut {
    /// This verdict carries exactly `step`.
    pub open spec fn describes(&self, step: LineStep) -> bool {
        &&& self.status == step.status
        &&& self.line@ == step.line
        &&& self.line_len == self.line@.len()
        &&& self.carry@ == step.carry
        &&& self.carry_len == self.carry@.len()
        &&& self.consumed == step.consumed
    }
}

/// Index of the first newline of `s`.
pub fn find_newline(s: &[u8]) -> (r: usize)
    ensures
        r == first_newline(s@),
{
    let mut i: usize = 0;
    while i < s.len() && s[i] != NEWLINE
        invariant
            i <= s@.len(),
            forall|j: int| 0 <= j < i ==> s@[j] != NEWLINE,
        decreases s@.len() - i,
    {
        i += 1;
    }
    proof {
        lemma_first_newline_unique(s@, i as int);
    }
    i
}

/// Whether `s[..end]` holds the byte `b`.
pub fn holds_byte(s: &[u8], end: usize, b: u8) -> (r: bool)
    requires
        end <= s@.len(),
    ensures
        r == s@.take(end as int).contains(b),
{
    let mut i: usize = 0;
    while i < end
        invariant
            i <= end <= s@.len(),
            forall|j: int| 0 <= j < i ==> s@[j] != b,
        decreases end - i,
    {
        if s[i] == b {
            assert(s@.take(end as int)[i as int] == b);
            return true;
        }
        i += 1;
    }
    assert(!s@.take(end as int).contains(b)) by {
        assert forall|j: int| 0 <= j < end implies s@.take(end as int)[j] != b by {
            assert(s@.take(end as int)[j] == s@[j]);
        }
    }
    false
}

/// The verdict on the body `s[..end]`.
fn verdict_of(s: &[u8], end: usize) -> (r: i64)
    requires
        end <= s@.len(),
    ensures
        r == line_verdict(s@.take(end as int)),
{
    if end > LINE_BODY_BYTES {
        LINE_OVERLONG
    } else if holds_byte(s, end, CARRIAGE_RETURN) {
        LINE_MALFORMED
    } else {
        LINE_PRODUCED
    }
}

fn refused(status: i64, carry: &[u8]) -> (out: LineOut)
    ensures
        out.describes(line_refused(status, carry@)),
{
    LineOut {
        status,
        line: Vec::new(),
        line_len: 0,
        carry: vstd::slice::slice_to_vec(carry),
        carry_len: carry.len(),
        consumed: 0,
    }
}

impl LanguageRuntime {
    /// Streaming line step: one chunk view in, at most one line plus carry
    /// out.
    pub fn next_line(&self, carry: &[u8], view: &[u8], eof: bool) -> (r: Result<LineOut, IngestError>)
        requires
            carry@.len() <= LINE_CARRY_BYTES,
        ensures
            r matches Ok(out) && out.describes(line_step(carry@, view@, eof)),
    {
        let staged = concat_bytes(carry, view);
        let ghost s = staged@;
        let i = find_newline(staged.as_slice());
        if i < staged.len() {
            let end: usize = if i > 0 && staged[i - 1] == CARRIAGE_RETURN {
                i - 1
            } else {
                i
            };
            assert(strip_cr(s.take(i as int)) =~= s.take(end as int));
            let verdict = verdict_of(staged.as_slice(), end);
            if verdict != LINE_PRODUCED {
                return Ok(refused(verdict, carry));
            }
            let rest_len: usize = staged.len() - (i + 1);
            let keep: usize = if rest_len > LINE_CARRY_BYTES {
                LINE_CARRY_BYTES
            } else {
                rest_len
            };
            let line = vstd::slice::slice_to_vec(&staged.as_slice()[0..end]);
            let next = vstd::slice::slice_to_vec(&staged.as_slice()[i + 1..i + 1 + keep]);
            assert(line@ =~= s.take(end as int));
            assert(next@ =~= s.skip(i + 1).take(keep as int));
            let consumed: usize = i + 1 + keep - carry.len();
            Ok(
                LineOut {
                    status: LINE_PRODUCED,
                    line,
                    line_len: end,
                    carry: next,
                    carry_len: keep,
                    consumed,
                },
            )
        } else if eof {
            if staged.len() == 0 {
                Ok(
                    LineOut {
                        status: LINE_COMPLETE,
                        line: Vec::new(),
                        line_len: 0,
                        carry: Vec::new(),
                        carry_len: 0,
                        consumed: 0,
                    },
                )
            } else {
                let verdict = verdict_of(staged.as_slice(), staged.len());
                assert(s.take(s.len() as int) =~= s);
                if verdict != LINE_PRODUCED {
                    Ok(refused(verdict, carry))
                } else {
                    let len = staged.len();
                    Ok(
                        LineOut {
                            status: LINE_PRODUCED,
                            line: staged,
                            line_len: len,
                            carry: Vec::new(),
                            carry_len: 0,
                            consumed: view.len(),
                        },
                    )
                }
            }
        } else if staged.len() > LINE_CARRY_BYTES {
            Ok(refused(LINE_OVERLONG, carry))
        } else {
            let len = staged.len();
            Ok(
                LineOut {
                    status: LINE_NEED_MORE,
                    line: Vec::new(),
                    line_len: 0,
                    carry: staged,
                    carry_len: len,
                    consumed: view.len(),
                },
            )
        }
    }
}

} // verus!
