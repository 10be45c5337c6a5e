//! The field step of delimited records: unescape one field of a line.
//!
//! Fields split on `,`. A `\` takes the next byte literally, except a
//! newline or carriage return (and a lone `\` at the end is malformed).
//! Control bytes below `0x20` other than `\t` are malformed. A field holds
//! at most 63 unescaped bytes.

use vstd::prelude::*;

use crate::error::IngestError;
use crate::language::{FieldOut, LanguageRuntime};
use crate::language::lines::{CARRIAGE_RETURN, NEWLINE};

verus! {

/// A field was read.
pub const FIELD_OK: i64 = 0;
/// No field starts here.
pub const FIELD_NONE: i64 = 1;
/// A bad escape or a control byte.
pub const FIELD_MALFORMED: i64 = 2;
/// The unescaped value exceeds its bound.
pub const FIELD_OVERLONG: i64 = 3;

/// Bound on one unescaped field value, in bytes.
pub const FIELD_VALUE_BYTES: usize = 63;
/// Bound on a staged line, in bytes.
pub const FIELD_LINE_BYTES: usize = 256;

pub const COMMA: u8 = 44;
pub const BACKSLASH: u8 = 92;
pub const TAB: u8 = 9;

/// The outcome of one field step.
pub ghost struct FieldStep {
    pub status: i64,
    pub value: Seq<u8>,
    pub next_start: int,
    pub has_more: bool,
}

/// A failure at position `j`.
pub open spec fn field_failed(status: i64, j: int) -> FieldStep {
    FieldStep { status, value: seq![], next_start: j, has_more: false }
}

/// A control byte that a field may not hold.
pub open spec fn forbidden_control(b: u8) -> bool {
    b < 32 && b != TAB
}

/// Reading on from position `j` with `acc` unescaped so far.
pub open spec fn field_scan(line: Seq<u8>, j: int, acc: Seq<u8>) -> FieldStep
    decreases line.len() - j,
{
    if j >= line.len() {
        FieldStep { status: FIELD_OK, value: acc, next_start: line.len() as int, has_more: false }
    } else {
        let b = line[j];
        if b == COMMA {
            FieldStep { status: FIELD_OK, value: acc, next_start: j + 1, has_more: true }
        } else if b == BACKSLASH {
            if j + 1 >= line.len() || line[j + 1] == NEWLINE || line[j + 1] == CARRIAGE_RETURN {
                field_failed(FIELD_MALFORMED, j)
            } else if acc.len() >= FIELD_VALUE_BYTES {
                field_failed(FIELD_OVERLONG, j)
            } else {
                field_scan(line, j + 2, acc.push(line[j + 1]))
            }
        } else if forbidden_control(b) {
            field_failed(FIELD_MALFORMED, j)
        } else if acc.len() >= FIELD_VALUE_BYTES {
            field_failed(FIELD_OVERLONG, j)
        } else {
            field_scan(line, j + 1, acc.push(b))
        }
    }
}

/// The field of `line` that starts at `start`. An empty line, or a start
/// past its end, holds no field; a start at the end of a non-empty line
/// holds one empty final field.
pub open spec fn field_step(line: Seq<u8>, start: int) -> FieldStep {
    if line.len() == 0 || start > line.len() {
        field_failed(FIELD_NONE, start)
    } else {
        field_scan(line, start, seq![])
    }
}

pub proof fn lemma_field_scan_progress(line: Seq<u8>, j: int, acc: Seq<u8>)
    requires
        0 <= j,
    ensures
        field_scan(line, j, acc).has_more ==> j < field_scan(line, j, acc).next_start <= line.len(),
    decreases line.len() - j,
{
    if j < line.len() {
        let b = line[j];
        if b == BACKSLASH {
            if !(j + 1 >= line.len() || line[j + 1] == NEWLINE || line[j + 1] == CARRIAGE_RETURN)
                && acc.len() < FIELD_VALUE_BYTES {
                lemma_field_scan_progress(line, j + 2, acc.push(line[j + 1]));
            }
        } else if b != COMMA && !forbidden_control(b) && acc.len() < FIELD_VALUE_BYTES {
            lemma_field_scan_progress(line, j + 1, acc.push(b));
        }
    }
}

/// A field that goes on ends strictly after where it started.
pub proof fn lemma_field_step_progress(line: Seq<u8>, start: int)
    requires
        0 <= start,
    ensures
        field_step(line, start).has_more ==> start < field_step(line, start).next_start
            <= line.len(),
{
    if !(line.len() == 0 || start > line.len()) {
        lemma_field_scan_progress(line, start, seq![]);
    }
}

impl FieldOut {
    /// This verdict carries exactly `step`.
    pub open spec fn describes(&self, step: FieldStep) -> bool {
        &&& self.status == step.status
        &&& self.value@ == step.value
        &&& self.value_len == self.value@.len()
        &&& self.next_start == step.next_start
        &&& self.has_more == step.has_more
    }
}

fn field_failure(status: i64, j: u64) -> (out: FieldOut)
    ensures
        out.describes(field_failed(status, j as int)),
{
    FieldOut { status, value: Vec::new(), value_len: 0, next_start: j, has_more: false }
}

impl LanguageRuntime {
    /// Streaming field step: unescape one field starting at `start`.
    pub fn field_at(&self, line: &[u8], start: u64) -> (r: Result<FieldOut, IngestError>)
        requires
            line@.len() <= FIELD_LINE_BYTES,
        ensures
            r matches Ok(out) && out.describes(field_step(line@, start as int)),
    {
        let len = line.len();
        if len == 0 || start > len as u64 {
            return Ok(field_failure(FIELD_NONE, start));
        }
        let mut j: usize = start as usize;
        let mut value: Vec<u8> = Vec::new();
        loop
            invariant
                j <= len == line@.len() <= FIELD_LINE_BYTES,
                value@.len() <= FIELD_VALUE_BYTES,
                field_scan(line@, j as int, value@) == field_step(line@, start as int),
            decreases len - j,
        {
            if j >= len {
                return Ok(
                    FieldOut {
                        status: FIELD_OK,
                        value_len: value.len(),
                        value,
                        next_start: len as u64,
                        has_more: false,
                    },
                );
            }
            let b = line[j];
            if b == COMMA {
                return Ok(
                    FieldOut {
                        status: FIELD_OK,
                        value_len: value.len(),
                        value,
                        next_start: (j + 1) as u64,
                        has_more: true,
                    },
                );
            } else if b == BACKSLASH {
                if j + 1 >= len || line[j + 1] == NEWLINE || line[j + 1] == CARRIAGE_RETURN {
                    return Ok(field_failure(FIELD_MALFORMED, j as u64));
                }
                if value.len() >= FIELD_VALUE_BYTES {
                    return Ok(field_failure(FIELD_OVERLONG, j as u64));
                }
                value.push(line[j + 1]);
                j = j + 2;
            } else if b < 32 && b != TAB {
                return Ok(field_failure(FIELD_MALFORMED, j as u64));
            } else {
                if value.len() >= FIELD_VALUE_BYTES {
                    return Ok(field_failure(FIELD_OVERLONG, j as u64));
                }
                value.push(b);
                j = j + 1;
            }
        }
    }
}

} // verus!
