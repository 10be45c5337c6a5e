//! Streaming delimited-record ingestion.
//!
//! Format (CSV-lite, byte-oriented): records are `\n`-terminated lines
//! (`\r\n` tolerated), fields split on `,`, at most 8 fields of at most 63
//! unescaped bytes each, `\` escapes any byte except newline/CR. Lines are
//! at most 255 raw bytes.
//!
//! The reader windows the byte stream into views of at most 256 bytes and
//! holds the carry between calls; every boundary, escape and validation
//! decision is taken by the line and field steps of [`LanguageRuntime`].
//! What a reader yields depends only on the bytes fed, never on how they
//! were chunked (see [`lemma_feed_split`]).

use vstd::prelude::*;

use crate::error::{ErrorView, IngestError};
use crate::language::fields::{
    field_scan, field_step, forbidden_control, lemma_field_step_progress, BACKSLASH, COMMA,
    FIELD_MALFORMED, FIELD_NONE, FIELD_OK,
};
use crate::language::lines::{
    first_newline, lemma_first_newline, lemma_first_newline_concat, lemma_first_newline_unique,
    lemma_newline_free, line_step, CARRIAGE_RETURN, NEWLINE,
    line_verdict, newline_free, strip_cr, LINE_CARRY_BYTES, LINE_COMPLETE, LINE_MALFORMED,
    LINE_NEED_MORE, LINE_OVERLONG, LINE_PRODUCED,
};
use crate::language::LanguageRuntime;
use crate::text::{decimal, decimal_int, decimal_i64, decimal_u64};

verus! {

pub const VIEW_BYTES: usize = 256;
pub const MAX_FIELDS: usize = 8;
pub const MAX_LINE_BYTES: usize = 255;
pub const MAX_FIELD_BYTES: usize = 63;

/// One ingested record with its source position.
#[derive(Debug, Clone, PartialEq, Eq)]
pub struct CsvRecord {
    pub fields: Vec<Vec<u8>>,
    /// 1-based line number in the stream.
    pub line_no: u64,
    /// Byte range of the line body in the stream (excluding terminator).
    pub byte_start: u64,
    pub byte_end: u64,
}

/// The content of a [`CsvRecord`].
pub ghost struct RecordView {
    pub fields: Seq<Seq<u8>>,
    pub line_no: nat,
    pub byte_start: nat,
    pub byte_end: nat,
}

/// The byte strings held by a sequence of vectors.
pub open spec fn byte_strings(v: Seq<Vec<u8>>) -> Seq<Seq<u8>> {
    v.map_values(|f: Vec<u8>| f@)
}

impl View for CsvRecord {
    type V = RecordView;

    open spec fn view(&self) -> RecordView {
        RecordView {
            fields: byte_strings(self.fields@),
            line_no: self.line_no as nat,
            byte_start: self.byte_start as nat,
            byte_end: self.byte_end as nat,
        }
    }
}

pub open spec fn records_view(v: Seq<CsvRecord>) -> Seq<RecordView> {
    v.map_values(|r: CsvRecord| r@)
}

// ----- fields of one line ------------------------------------------------

/// How splitting one line into fields ends.
pub ghost enum FieldsOutcome {
    Fields(Seq<Seq<u8>>),
    Malformed,
    Overlong,
    TooMany,
}

/// Fields of `line` from `start` on, after the fields `acc`.
pub open spec fn fields_from(line: Seq<u8>, start: int, acc: Seq<Seq<u8>>) -> FieldsOutcome
    decreases MAX_FIELDS - acc.len(),
{
    let f = field_step(line, start);
    if f.status == FIELD_OK {
        let more = acc.push(f.value);
        if more.len() > MAX_FIELDS {
            FieldsOutcome::TooMany
        } else if f.has_more {
            fields_from(line, f.next_start, more)
        } else {
            FieldsOutcome::Fields(more)
        }
    } else if f.status == FIELD_NONE {
        FieldsOutcome::Fields(acc)
    } else if f.status == FIELD_MALFORMED {
        FieldsOutcome::Malformed
    } else {
        FieldsOutcome::Overlong
    }
}

/// The unescaped fields of one line.
pub open spec fn fields_of(line: Seq<u8>) -> FieldsOutcome {
    fields_from(line, 0, seq![])
}

/// `"line N"` followed by `what`.
pub open spec fn line_detail(line_no: nat, what: Seq<char>) -> Seq<char> {
    "line "@ + decimal(line_no) + what
}

/// The error for a failed field split on line `line_no`.
pub open spec fn fields_error(outcome: FieldsOutcome, line_no: nat) -> ErrorView {
    match outcome {
        FieldsOutcome::Overlong => ErrorView::Overlong {
            adapter: "csv"@,
            detail: line_detail(line_no, ": field exceeds 63 bytes"@),
        },
        FieldsOutcome::TooMany => ErrorView::Malformed {
            adapter: "csv"@,
            detail: line_detail(line_no, ": more than 8 fields"@),
        },
        _ => ErrorView::Malformed {
            adapter: "csv"@,
            detail: line_detail(line_no, ": malformed field escape or control byte"@),
        },
    }
}

/// The error for a refused line step on line `line_no`.
pub open spec fn line_status_error(status: i64, line_no: nat) -> ErrorView {
    if status == LINE_MALFORMED {
        ErrorView::Malformed { adapter: "csv"@, detail: line_detail(line_no, ": malformed bytes"@) }
    } else if status == LINE_OVERLONG {
        ErrorView::Overlong {
            adapter: "csv"@,
            detail: line_detail(line_no, ": line exceeds 255 bytes"@),
        }
    } else {
        ErrorView::Language("unknown line status "@ + decimal_int(status as int))
    }
}

fn line_message(line_no: u64, what: &str) -> (r: String)
    ensures
        r@ == line_detail(line_no as nat, what@),
{
    let mut detail = String::from_str("line ");
    let number = decimal_u64(line_no);
    detail.append(number.as_str());
    detail.append(what);
    detail
}

/// Split one raw line into unescaped fields. The 8-field bound is
/// enforced here against `has_more` so the schema bound stays visible.
pub fn parse_fields(rt: &LanguageRuntime, line: &[u8], line_no: u64) -> (r: Result<
    Vec<Vec<u8>>,
    IngestError,
>)
    requires
        line@.len() <= VIEW_BYTES,
    ensures
        match fields_of(line@) {
            FieldsOutcome::Fields(fs) => r matches Ok(v) && byte_strings(v@) == fs,
            other => r matches Err(e) && e@ == fields_error(other, line_no as nat),
        },
{
    let mut fields: Vec<Vec<u8>> = Vec::new();
    let mut start: u64 = 0;
    assert(byte_strings(fields@) =~= seq![]);
    loop
        invariant
            line@.len() <= VIEW_BYTES,
            fields@.len() <= MAX_FIELDS,
            fields_from(line@, start as int, byte_strings(fields@)) == fields_of(line@),
        decreases MAX_FIELDS - fields@.len(),
    {
        let ghost before = byte_strings(fields@);
        let field = match rt.field_at(line, start) {
            Ok(f) => f,
            Err(e) => return Err(e),
        };
        proof {
            lemma_field_step_progress(line@, start as int);
        }
        if field.status == FIELD_OK {
            let ghost value = field.value@;
            fields.push(field.value);
            assert(byte_strings(fields@) =~= before.push(value));
            if fields.len() > MAX_FIELDS {
                let detail = line_message(line_no, ": more than 8 fields");
                return Err(IngestError::malformed("csv", detail.as_str()));
            }
            if field.has_more {
                start = field.next_start;
            } else {
                return Ok(fields);
            }
        } else if field.status == FIELD_NONE {
            return Ok(fields);
        } else if field.status == FIELD_MALFORMED {
            let detail = line_message(line_no, ": malformed field escape or control byte");
            return Err(IngestError::malformed("csv", detail.as_str()));
        } else {
            let detail = line_message(line_no, ": field exceeds 63 bytes");
            return Err(crate::error::overlong("csv", detail.as_str()));
        }
    }
}

/// The error for a refused line step.
fn line_status(status: i64, line_no: u64) -> (r: IngestError)
    ensures
        r@ == line_status_error(status, line_no as nat),
{
    if status == LINE_MALFORMED {
        let detail = line_message(line_no, ": malformed bytes");
        IngestError::malformed("csv", detail.as_str())
    } else if status == LINE_OVERLONG {
        let detail = line_message(line_no, ": line exceeds 255 bytes");
        crate::error::overlong("csv", detail.as_str())
    } else {
        let mut detail = String::from_str("unknown line status ");
        let number = decimal_i64(status);
        detail.append(number.as_str());
        crate::error::language(detail.as_str())
    }
}

// ----- writing records ---------------------------------------------------

/// A field written for a record line: each `,` and `\` escaped by a `\`.
pub open spec fn escaped_field(f: Seq<u8>) -> Seq<u8>
    decreases f.len(),
{
    if f.len() == 0 {
        seq![]
    } else {
        let b = f[0];
        (if b == COMMA || b == BACKSLASH {
            seq![BACKSLASH, b]
        } else {
            seq![b]
        }) + escaped_field(f.drop_first())
    }
}

/// The escaped fields of a record joined by `,`.
pub open spec fn record_line(fs: Seq<Seq<u8>>) -> Seq<u8>
    decreases fs.len(),
{
    if fs.len() == 0 {
        seq![]
    } else if fs.len() == 1 {
        escaped_field(fs[0])
    } else {
        escaped_field(fs[0]) + seq![COMMA] + record_line(fs.drop_first())
    }
}

/// A field that a record line can carry: within the field bound and free
/// of the control bytes a field refuses.
pub open spec fn writable_field(f: Seq<u8>) -> bool {
    &&& f.len() <= MAX_FIELD_BYTES
    &&& forall|j: int| 0 <= j < f.len() ==> !forbidden_control(#[trigger] f[j])
}

/// Reading an escaped field unescapes it.
proof fn lemma_scan_escaped(line: Seq<u8>, j: int, acc: Seq<u8>, f: Seq<u8>)
    requires
        0 <= j,
        j + escaped_field(f).len() <= line.len(),
        line.subrange(j, j + escaped_field(f).len()) == escaped_field(f),
        acc.len() + f.len() <= MAX_FIELD_BYTES,
        forall|k: int| 0 <= k < f.len() ==> !forbidden_control(#[trigger] f[k]),
    ensures
        field_scan(line, j, acc) == field_scan(line, j + escaped_field(f).len(), acc + f),
    decreases f.len(),
{
    if f.len() == 0 {
        assert(acc + f =~= acc);
    } else {
        let b = f[0];
        let rest = f.drop_first();
        let head = if b == COMMA || b == BACKSLASH {
            seq![BACKSLASH, b]
        } else {
            seq![b]
        };
        assert(escaped_field(f) == head + escaped_field(rest));
        let e = escaped_field(f);
        assert(line[j] == e[0]);
        assert forall|k: int| 0 <= k < rest.len() implies !forbidden_control(#[trigger] rest[k]) by {
            assert(rest[k] == f[k + 1]);
        }
        assert(acc.push(b) + rest =~= acc + f);
        let hl = head.len() as int;
        assert(line.subrange(j + hl, j + hl + escaped_field(rest).len()) =~= escaped_field(rest))
            by {
            assert forall|k: int| 0 <= k < escaped_field(rest).len() implies line.subrange(
                j + hl,
                j + hl + escaped_field(rest).len(),
            )[k] == escaped_field(rest)[k] by {
                assert(line[j + hl + k] == e[hl + k]);
            }
        }
        if b == COMMA || b == BACKSLASH {
            assert(line[j + 1] == e[1]);
        }
        lemma_scan_escaped(line, j + hl, acc.push(b), rest);
    }
}

/// No byte of an escaped writable field is a newline or carriage return;
/// its commas are all escaped.
proof fn lemma_escaped_bytes(f: Seq<u8>)
    requires
        forall|k: int| 0 <= k < f.len() ==> !forbidden_control(#[trigger] f[k]),
    ensures
        forall|k: int| 0 <= k < escaped_field(f).len() ==> escaped_field(f)[k] != NEWLINE
            && escaped_field(f)[k] != CARRIAGE_RETURN,
        escaped_field(f).len() >= f.len(),
    decreases f.len(),
{
    if f.len() > 0 {
        let rest = f.drop_first();
        assert forall|k: int| 0 <= k < rest.len() implies !forbidden_control(#[trigger] rest[k]) by {
            assert(rest[k] == f[k + 1]);
        }
        lemma_escaped_bytes(rest);
        let b = f[0];
        assert(!forbidden_control(f[0]));
    }
}

proof fn lemma_record_bytes(fs: Seq<Seq<u8>>)
    requires
        forall|i: int| 0 <= i < fs.len() ==> writable_field(#[trigger] fs[i]),
    ensures
        forall|k: int| 0 <= k < record_line(fs).len() ==> record_line(fs)[k] != NEWLINE
            && record_line(fs)[k] != CARRIAGE_RETURN,
    decreases fs.len(),
{
    if fs.len() > 0 {
        assert(writable_field(fs[0]));
        lemma_escaped_bytes(fs[0]);
        if fs.len() > 1 {
            let rest = fs.drop_first();
            assert forall|i: int| 0 <= i < rest.len() implies writable_field(#[trigger] rest[i]) by {
                assert(rest[i] == fs[i + 1]);
            }
            lemma_record_bytes(rest);
            let e = escaped_field(fs[0]);
            let line = record_line(fs);
            assert forall|k: int| 0 <= k < line.len() implies line[k] != NEWLINE && line[k]
                != CARRIAGE_RETURN by {
                if k < e.len() {
                    assert(line[k] == e[k]);
                } else if k > e.len() {
                    assert(line[k] == record_line(rest)[k - e.len() - 1]);
                }
            }
        }
    }
}

/// Splitting `p ++ record_line(fs)` from the end of `p`, after the fields
/// `acc`, yields `acc ++ fs`.
proof fn lemma_fields_of_record(p: Seq<u8>, fs: Seq<Seq<u8>>, acc: Seq<Seq<u8>>)
    requires
        fs.len() >= 1,
        acc.len() + fs.len() <= MAX_FIELDS,
        (p + record_line(fs)).len() > 0,
        forall|i: int| 0 <= i < fs.len() ==> writable_field(#[trigger] fs[i]),
    ensures
        fields_from(p + record_line(fs), p.len() as int, acc) == FieldsOutcome::Fields(acc + fs),
    decreases fs.len(),
{
    let line = p + record_line(fs);
    let f0 = fs[0];
    let e = escaped_field(f0);
    assert(writable_field(f0));
    assert(line.subrange(p.len() as int, p.len() + e.len() as int) =~= e) by {
        assert forall|k: int| 0 <= k < e.len() implies line.subrange(p.len() as int, p.len()
            + e.len() as int)[k] == e[k] by {
            if fs.len() == 1 {
                assert(line[p.len() + k] == record_line(fs)[k]);
            } else {
                assert(record_line(fs) == e + seq![COMMA] + record_line(fs.drop_first()));
                assert(line[p.len() + k] == record_line(fs)[k]);
            }
        }
    }
    assert(seq![] + f0 =~= f0);
    lemma_scan_escaped(line, p.len() as int, seq![], f0);
    let k = p.len() + e.len() as int;
    if fs.len() == 1 {
        assert(line.len() == k);
        assert(acc.push(f0) =~= acc + fs);
    } else {
        let rest = fs.drop_first();
        assert(record_line(fs) == e + seq![COMMA] + record_line(rest));
        assert(line[k] == COMMA);
        let p2 = p + e + seq![COMMA];
        assert(p2 + record_line(rest) =~= line);
        assert forall|i: int| 0 <= i < rest.len() implies writable_field(#[trigger] rest[i]) by {
            assert(rest[i] == fs[i + 1]);
        }
        lemma_fields_of_record(p2, rest, acc.push(f0));
        assert(acc.push(f0) + rest =~= acc + fs);
    }
}

/// A record written as its escaped fields joined by `,` and ended by a
/// newline reads back as that record, whatever follows it: the same
/// fields, numbered next, positioned at its bytes. (One empty field is
/// written as a bare newline, which reads back as the zero-field record.)
pub proof fn lemma_record_reads_back(fs: Seq<Seq<u8>>, rest: Seq<u8>, line_no: nat, pos: nat)
    requires
        fs.len() <= MAX_FIELDS,
        forall|i: int| 0 <= i < fs.len() ==> writable_field(#[trigger] fs[i]),
        record_line(fs).len() <= MAX_LINE_BYTES,
        !(fs.len() == 1 && fs[0].len() == 0),
    ensures
        ({
            let body = record_line(fs);
            let next = csv_scan(rest, line_no + 1, pos + body.len() + 1);
            csv_scan(body + seq![NEWLINE] + rest, line_no, pos) == CsvScan {
                records: seq![record_at(fs, line_no + 1, pos, body)] + next.records,
                error: next.error,
                carry: next.carry,
            }
        }),
{
    let body = record_line(fs);
    let s = body + seq![NEWLINE] + rest;
    lemma_record_bytes(fs);
    assert forall|j: int| 0 <= j < body.len() implies s[j] != NEWLINE by {
        assert(s[j] == body[j]);
    }
    lemma_first_newline_unique(s, body.len() as int);
    assert(s.take(body.len() as int) =~= body);
    assert(s.skip(body.len() + 1 as int) =~= rest);
    assert(!body.contains(CARRIAGE_RETURN));
    if body.len() > 0 {
        assert(body.last() != CARRIAGE_RETURN);
    }
    assert(strip_cr(body) == body);
    if fs.len() == 0 {
        assert(body =~= seq![]);
        assert(fs =~= seq![]);
    } else {
        if body.len() == 0 {
            lemma_escaped_bytes(fs[0]);
            if fs.len() > 1 {
                assert(record_line(fs) == escaped_field(fs[0]) + seq![COMMA] + record_line(
                    fs.drop_first(),
                ));
            }
            assert(fs[0].len() == 0);
        }
        assert(seq![] + body =~= body);
        lemma_fields_of_record(seq![], fs, seq![]);
        assert(seq![] + fs =~= fs);
    }
}

// ----- records of a stream -----------------------------------------------

/// What reading a run of bytes yields: the records of its complete lines
/// (those before a failure), the failure if any, and the bytes left
/// waiting for their newline.
pub ghost struct CsvScan {
    pub records: Seq<RecordView>,
    pub error: Option<ErrorView>,
    pub carry: Seq<u8>,
}

pub open spec fn scan_failed(e: ErrorView) -> CsvScan {
    CsvScan { records: seq![], error: Some(e), carry: seq![] }
}

/// The record of line `line_no` with body `body` at stream position `pos`.
pub open spec fn record_at(fields: Seq<Seq<u8>>, line_no: nat, pos: nat, body: Seq<u8>) -> RecordView {
    RecordView { fields, line_no, byte_start: pos, byte_end: pos + body.len() }
}

/// Reading `s`, whose first byte stands at stream position `pos`, after
/// `line_no` lines: each complete line is checked, split into fields and
/// numbered in turn; the unterminated tail waits in the carry unless it
/// already exceeds the carry's capacity.
pub open spec fn csv_scan(s: Seq<u8>, line_no: nat, pos: nat) -> CsvScan
    decreases s.len(),
{
    let i = first_newline(s);
    if 0 <= i < s.len() {
        let body = strip_cr(s.take(i));
        let verdict = line_verdict(body);
        if verdict != LINE_PRODUCED {
            scan_failed(line_status_error(verdict, line_no + 1))
        } else {
            match fields_of(body) {
                FieldsOutcome::Fields(fs) => {
                    let rest = csv_scan(s.skip(i + 1), line_no + 1, (pos + i + 1) as nat);
                    CsvScan {
                        records: seq![record_at(fs, line_no + 1, pos, body)] + rest.records,
                        error: rest.error,
                        carry: rest.carry,
                    }
                },
                other => scan_failed(fields_error(other, line_no + 1)),
            }
        }
    } else if s.len() > LINE_CARRY_BYTES {
        scan_failed(line_status_error(LINE_OVERLONG, line_no + 1))
    } else {
        CsvScan { records: seq![], error: None, carry: s }
    }
}

/// End of input over the carry `carry`, which ends at stream position
/// `pos`: an unterminated final tail still yields its record.
pub open spec fn csv_finish(carry: Seq<u8>, line_no: nat, pos: nat) -> CsvScan {
    if carry.len() == 0 {
        CsvScan { records: seq![], error: None, carry: seq![] }
    } else if line_verdict(carry) != LINE_PRODUCED {
        scan_failed(line_status_error(line_verdict(carry), line_no + 1))
    } else {
        match fields_of(carry) {
            FieldsOutcome::Fields(fs) => CsvScan {
                records: seq![record_at(fs, line_no + 1, (pos - carry.len()) as nat, carry)],
                error: None,
                carry: seq![],
            },
            other => scan_failed(fields_error(other, line_no + 1)),
        }
    }
}

/// Reading `s ++ t` is reading `s`, then reading what `s` left in the carry
/// followed by `t`; a failure within `s` is the failure of `s ++ t`.
pub proof fn lemma_scan_concat(s: Seq<u8>, t: Seq<u8>, line_no: nat, pos: nat)
    ensures
        ({
            let first = csv_scan(s, line_no, pos);
            let whole = csv_scan(s + t, line_no, pos);
            if first.error is Some {
                whole == first
            } else {
                let second = csv_scan(
                    first.carry + t,
                    line_no + first.records.len(),
                    (pos + s.len() - first.carry.len()) as nat,
                );
                &&& whole.records == first.records + second.records
                &&& whole.error == second.error
                &&& whole.carry == second.carry
                &&& first.carry.len() <= s.len()
            }
        }),
    decreases s.len(),
{
    let st = s + t;
    let i = first_newline(s);
    lemma_first_newline(s);
    lemma_first_newline_concat(s, t);
    if i < s.len() {
        assert(st.take(i) =~= s.take(i));
        assert(st.skip(i + 1) =~= s.skip(i + 1) + t);
        let body = strip_cr(s.take(i));
        if line_verdict(body) == LINE_PRODUCED {
            match fields_of(body) {
                FieldsOutcome::Fields(fs) => {
                    lemma_scan_concat(s.skip(i + 1), t, line_no + 1, (pos + i + 1) as nat);
                    let rest = csv_scan(s.skip(i + 1), line_no + 1, (pos + i + 1) as nat);
                    if rest.error is None {
                        let r = record_at(fs, line_no + 1, pos, body);
                        let second = csv_scan(
                            rest.carry + t,
                            line_no + 1 + rest.records.len(),
                            (pos + i + 1 + s.skip(i + 1).len() - rest.carry.len()) as nat,
                        );
                        assert(seq![r] + (rest.records + second.records) =~= (seq![r]
                            + rest.records) + second.records);
                    }
                },
                _ => {},
            }
        }
    } else {
        lemma_first_newline(t);
        if s.len() > LINE_CARRY_BYTES {
            let j = first_newline(st);
            if j < st.len() {
                assert(strip_cr(st.take(j)).len() >= j - 1);
            }
        } else {
            assert(seq![] + csv_scan(s + t, line_no, pos).records =~= csv_scan(
                s + t,
                line_no,
                pos,
            ).records);
        }
    }
}

/// A newline-free prefix longer than the carry makes the line it starts
/// overlong, whatever follows.
pub proof fn lemma_scan_overlong_prefix(p: Seq<u8>, t: Seq<u8>, line_no: nat, pos: nat)
    requires
        newline_free(p),
        p.len() > LINE_CARRY_BYTES,
    ensures
        csv_scan(p + t, line_no, pos) == scan_failed(line_status_error(LINE_OVERLONG, line_no + 1)),
{
    lemma_newline_free(p);
    lemma_scan_concat(p, t, line_no, pos);
}

/// A run without a complete line yields no record and stays in the carry.
pub proof fn lemma_scan_waiting(s: Seq<u8>, line_no: nat, pos: nat)
    requires
        newline_free(s),
        s.len() <= LINE_CARRY_BYTES,
    ensures
        csv_scan(s, line_no, pos) == (CsvScan { records: seq![], error: None, carry: s }),
{
    lemma_newline_free(s);
}

/// How one line step over `carry ++ view` advances the reading of
/// `carry ++ view ++ rest`.
pub proof fn lemma_step_scan(
    carry: Seq<u8>,
    view: Seq<u8>,
    rest: Seq<u8>,
    line_no: nat,
    pos: nat,
)
    requires
        carry.len() <= LINE_CARRY_BYTES,
        view.len() <= VIEW_BYTES,
        view.len() > 0 ==> newline_free(carry),
    ensures
        ({
            let st = line_step(carry, view, false);
            let sc = csv_scan(carry + view + rest, line_no, pos);
            &&& st.status == LINE_PRODUCED || st.status == LINE_NEED_MORE || st.status
                == LINE_MALFORMED || st.status == LINE_OVERLONG
            &&& (st.status == LINE_MALFORMED || st.status == LINE_OVERLONG) ==> sc == scan_failed(
                line_status_error(st.status, line_no + 1),
            )
            &&& st.status == LINE_NEED_MORE ==> {
                &&& st.carry == carry + view
                &&& newline_free(st.carry)
                &&& st.carry.len() <= LINE_CARRY_BYTES
                &&& st.consumed == view.len()
            }
            &&& st.status == LINE_PRODUCED ==> {
                let next = csv_scan(
                    st.carry + rest,
                    line_no + 1,
                    (pos + carry.len() + view.len() - st.carry.len()) as nat,
                );
                &&& st.consumed == view.len()
                &&& st.line.len() + st.carry.len() < carry.len() + view.len()
                &&& st.carry.len() <= LINE_CARRY_BYTES
                &&& st.line.len() <= MAX_LINE_BYTES
                &&& sc == match fields_of(st.line) {
                    FieldsOutcome::Fields(fs) => CsvScan {
                        records: seq![record_at(fs, line_no + 1, pos, st.line)] + next.records,
                        error: next.error,
                        carry: next.carry,
                    },
                    other => scan_failed(fields_error(other, line_no + 1)),
                }
            }
        }),
{
    let staged = carry + view;
    let s = carry + view + rest;
    let i = first_newline(staged);
    lemma_first_newline(staged);
    lemma_first_newline(carry);
    lemma_first_newline_concat(staged, rest);
    if i < staged.len() {
        assert(s.take(i) =~= staged.take(i));
        if view.len() > 0 {
            lemma_newline_free(carry);
            assert(i >= carry.len()) by {
                if i < carry.len() {
                    assert(staged[i] == carry[i]);
                }
            }
        } else {
            assert(staged =~= carry);
        }
        assert(staged.skip(i + 1).len() <= LINE_CARRY_BYTES);
        assert(staged.skip(i + 1).take(staged.skip(i + 1).len() as int) =~= staged.skip(i + 1));
        assert(s.skip(i + 1) =~= staged.skip(i + 1) + rest);
    } else {
        lemma_newline_free(staged);
        if staged.len() > LINE_CARRY_BYTES {
            lemma_scan_overlong_prefix(staged, rest, line_no, pos);
        }
    }
}

// ----- the reader --------------------------------------------------------

/// Incremental delimited-record reader. Feed arbitrary chunks; finish at
/// end-of-input. The reader holds only the carry bytes and its position.
#[derive(Debug)]
pub struct CsvReader {
    carry: Vec<u8>,
    line_no: u64,
    stream_pos: u64,
}

/// The state of a [`CsvReader`]: the bytes waiting for their newline, the
/// number of records produced, and the number of bytes fed.
pub ghost struct ReaderView {
    pub carry: Seq<u8>,
    pub line_no: nat,
    pub stream_pos: nat,
}

impl ReaderView {
    /// The carry waits for a newline and fits its capacity; every record
    /// consumed at least its terminator.
    pub open spec fn wf(self) -> bool {
        &&& newline_free(self.carry)
        &&& self.carry.len() <= LINE_CARRY_BYTES
        &&& self.line_no + self.carry.len() <= self.stream_pos
    }

    /// Stream position of the first carried byte.
    pub open spec fn carry_start(self) -> nat {
        (self.stream_pos - self.carry.len()) as nat
    }
}

/// What feeding `chunk` to a reader in state `r` reads.
pub open spec fn feed_scan(r: ReaderView, chunk: Seq<u8>) -> CsvScan {
    csv_scan(r.carry + chunk, r.line_no, r.carry_start())
}

/// The state after feeding `chunk` read as `scan`.
pub open spec fn after_feed(r: ReaderView, chunk: Seq<u8>, scan: CsvScan) -> ReaderView {
    ReaderView {
        carry: scan.carry,
        line_no: r.line_no + scan.records.len(),
        stream_pos: r.stream_pos + chunk.len(),
    }
}

/// What finishing a reader in state `r` reads.
pub open spec fn finish_scan(r: ReaderView) -> CsvScan {
    csv_finish(r.carry, r.line_no, r.stream_pos)
}

/// Feeding `x` and then `y` reads what feeding `x ++ y` at once reads: the
/// same records, the same failure, the same final state.
pub proof fn lemma_feed_split(r: ReaderView, x: Seq<u8>, y: Seq<u8>)
    requires
        r.wf(),
    ensures
        ({
            let first = feed_scan(r, x);
            let whole = feed_scan(r, x + y);
            if first.error is Some {
                whole == first
            } else {
                let r1 = after_feed(r, x, first);
                let second = feed_scan(r1, y);
                &&& whole.records == first.records + second.records
                &&& whole.error == second.error
                &&& after_feed(r, x + y, whole) == after_feed(r1, y, second)
            }
        }),
{
    let a = r.carry + x;
    let cs = r.carry_start();
    lemma_scan_concat(a, y, r.line_no, cs);
    assert(r.carry + (x + y) =~= a + y);
    let first = csv_scan(a, r.line_no, cs);
    assert(feed_scan(r, x) == first);
    assert(feed_scan(r, x + y) == csv_scan(a + y, r.line_no, cs));
    if first.error is None {
        let r1 = after_feed(r, x, first);
        assert(r1.carry_start() == (cs + a.len() - first.carry.len()) as nat);
        assert(r1.line_no == r.line_no + first.records.len());
    }
}

/// The chunks of a stream, joined in order.
pub open spec fn concat_chunks(chunks: Seq<Seq<u8>>) -> Seq<u8>
    decreases chunks.len(),
{
    if chunks.len() == 0 {
        seq![]
    } else {
        concat_chunks(chunks.drop_last()) + chunks.last()
    }
}

/// What feeding chunks one after another yields: the records of every
/// feed in order, the failure that stopped the feeding (if any), and the
/// reader's state after the last successful feed.
pub ghost struct FeedRun {
    pub records: Seq<RecordView>,
    pub error: Option<ErrorView>,
    pub state: ReaderView,
}

/// Feeding `chunks` in order to a reader in state `r`, stopping at the
/// first failing feed.
pub open spec fn feed_chunks(r: ReaderView, chunks: Seq<Seq<u8>>) -> FeedRun
    decreases chunks.len(),
{
    if chunks.len() == 0 {
        FeedRun { records: seq![], error: None, state: r }
    } else {
        let before = feed_chunks(r, chunks.drop_last());
        if before.error is Some {
            before
        } else {
            let scan = feed_scan(before.state, chunks.last());
            FeedRun {
                records: before.records + scan.records,
                error: scan.error,
                state: after_feed(before.state, chunks.last(), scan),
            }
        }
    }
}

/// Chunk boundaries do not change what a stream reads: feeding any chunks
/// one after another fails exactly as feeding their concatenation at once
/// fails, and otherwise yields the same records in the same order and the
/// same reader state, so finishing yields the same final records too.
pub proof fn lemma_feed_chunks(r: ReaderView, chunks: Seq<Seq<u8>>)
    requires
        r.wf(),
    ensures
        ({
            let run = feed_chunks(r, chunks);
            let whole = feed_scan(r, concat_chunks(chunks));
            &&& run.error == whole.error
            &&& run.error is None ==> {
                &&& run.records == whole.records
                &&& run.state == after_feed(r, concat_chunks(chunks), whole)
                &&& finish_scan(run.state) == finish_scan(after_feed(r, concat_chunks(chunks), whole))
            }
        }),
    decreases chunks.len(),
{
    if chunks.len() == 0 {
        lemma_scan_waiting(r.carry, r.line_no, r.carry_start());
        assert(r.carry + seq![] =~= r.carry);
        assert(after_feed(r, seq![], feed_scan(r, seq![])) == r);
    } else {
        let init = chunks.drop_last();
        let last = chunks.last();
        lemma_feed_chunks(r, init);
        lemma_feed_split(r, concat_chunks(init), last);
    }
}

/// A record written as a line reads back as that single record however the
/// line is chunked: feeding the chunks to a fresh reader fails nowhere,
/// yields exactly that record, numbered 1 and spanning the line's bytes,
/// and finishing yields nothing more.
pub proof fn lemma_chunked_record_round_trip(fs: Seq<Seq<u8>>, chunks: Seq<Seq<u8>>)
    requires
        fs.len() <= MAX_FIELDS,
        forall|i: int| 0 <= i < fs.len() ==> writable_field(#[trigger] fs[i]),
        record_line(fs).len() <= MAX_LINE_BYTES,
        !(fs.len() == 1 && fs[0].len() == 0),
        concat_chunks(chunks) == record_line(fs) + seq![NEWLINE],
    ensures
        ({
            let fresh = ReaderView { carry: seq![], line_no: 0, stream_pos: 0 };
            let run = feed_chunks(fresh, chunks);
            &&& run.error is None
            &&& run.records == seq![record_at(fs, 1, 0, record_line(fs))]
            &&& finish_scan(run.state) == (CsvScan { records: seq![], error: None, carry: seq![] })
        }),
{
    let fresh = ReaderView { carry: seq![], line_no: 0, stream_pos: 0 };
    let body = record_line(fs);
    lemma_feed_chunks(fresh, chunks);
    lemma_record_reads_back(fs, seq![], 0, 0);
    assert(seq![] + concat_chunks(chunks) =~= body + seq![NEWLINE] + seq![]);
    lemma_scan_waiting(seq![], 1, body.len() + 1);
    let next = csv_scan(seq![], 1, (body.len() + 1) as nat);
    assert(next.records =~= seq![]);
    assert(seq![record_at(fs, 1, 0, body)] + next.records =~= seq![record_at(fs, 1, 0, body)]);
}

impl CsvReader {
    pub closed spec fn view(&self) -> ReaderView {
        ReaderView {
            carry: self.carry@,
            line_no: self.line_no as nat,
            stream_pos: self.stream_pos as nat,
        }
    }

    pub fn new() -> (r: Self)
        ensures
            r.view() == (ReaderView { carry: seq![], line_no: 0, stream_pos: 0 }),
            r.view().wf(),
    {
        CsvReader { carry: Vec::new(), line_no: 0, stream_pos: 0 }
    }

    /// Splits `line` into the record that starts at `line_start`.
    fn parse_line(&mut self, rt: &LanguageRuntime, line: &[u8], line_start: u64) -> (r: Result<
        CsvRecord,
        IngestError,
    >)
        requires
            line@.len() <= MAX_LINE_BYTES,
            old(self).line_no < u64::MAX,
            line_start + line@.len() <= u64::MAX,
        ensures
            final(self).carry == old(self).carry,
            final(self).stream_pos == old(self).stream_pos,
            match fields_of(line@) {
                FieldsOutcome::Fields(fs) => r matches Ok(rec) && final(self).line_no
                    == old(self).line_no + 1 && rec@ == record_at(
                    fs,
                    (old(self).line_no + 1) as nat,
                    line_start as nat,
                    line@,
                ),
                other => r matches Err(e) && e@ == fields_error(other, (old(self).line_no + 1) as nat),
            },
    {
        let fields = parse_fields(rt, line, self.line_no + 1)?;
        self.line_no = self.line_no + 1;
        Ok(
            CsvRecord {
                fields,
                line_no: self.line_no,
                byte_start: line_start,
                byte_end: line_start + line.len() as u64,
            },
        )
    }

    /// One line step over the carry and `view`, recording the line it
    /// completes. `rest` stands for the bytes that follow `view`.
    fn step_line(
        &mut self,
        rt: &LanguageRuntime,
        view: &[u8],
        Ghost(rest): Ghost<Seq<u8>>,
        records: &mut Vec<CsvRecord>,
    ) -> (r: Result<i64, IngestError>)
        requires
            old(self).carry@.len() <= LINE_CARRY_BYTES,
            old(self).line_no + old(self).carry@.len() <= old(self).stream_pos,
            old(self).stream_pos + view@.len() <= u64::MAX,
            view@.len() <= VIEW_BYTES,
            view@.len() > 0 ==> newline_free(old(self).carry@),
        ensures
            ({
                let before = csv_scan(
                    old(self).carry@ + view@ + rest,
                    old(self).line_no as nat,
                    old(self).view().carry_start(),
                );
                match r {
                    Ok(status) => {
                        let after = csv_scan(
                            final(self).carry@ + rest,
                            final(self).line_no as nat,
                            final(self).view().carry_start(),
                        );
                        &&& final(self).carry@.len() <= LINE_CARRY_BYTES
                        &&& final(self).line_no + final(self).carry@.len() <= final(self).stream_pos
                        &&& final(self).stream_pos == old(self).stream_pos + view@.len()
                        &&& records_view(old(records)@) + before.records == records_view(
                            final(records)@,
                        ) + after.records
                        &&& before.error == after.error
                        &&& before.carry == after.carry
                        &&& final(self).line_no - old(self).line_no == final(records)@.len() - old(
                            records,
                        )@.len()
                        &&& (status == LINE_PRODUCED || status == LINE_NEED_MORE)
                        &&& status == LINE_NEED_MORE ==> newline_free(final(self).carry@)
                        &&& status == LINE_PRODUCED ==> final(self).carry@.len() < old(
                            self,
                        ).carry@.len() + view@.len()
                    },
                    Err(e) => before.error == Some(e@),
                }
            }),
    {
        let ghost old_records = records@;
        let ghost carry0 = self.carry@;
        let ghost n = self.line_no as nat;
        let ghost pos = self.view().carry_start();
        let carry_before = self.carry.len();
        let line_start: u64 = self.stream_pos - carry_before as u64;
        let out = match rt.next_line(self.carry.as_slice(), view, false) {
            Ok(out) => out,
            Err(e) => return Err(e),
        };
        proof {
            lemma_step_scan(carry0, view@, rest, n, pos);
        }
        self.carry = out.carry;
        self.stream_pos = self.stream_pos + out.consumed as u64;
        if out.status == LINE_PRODUCED {
            let rec = self.parse_line(rt, out.line.as_slice(), line_start)?;
            let ghost rv = rec@;
            records.push(rec);
            proof {
                let next = csv_scan(self.carry@ + rest, self.line_no as nat, self.view().carry_start());
                assert(records_view(records@) =~= records_view(old_records).push(rv));
                assert(records_view(old_records) + (seq![rv] + next.records) =~= records_view(
                    records@,
                ) + next.records);
            }
            Ok(LINE_PRODUCED)
        } else if out.status == LINE_NEED_MORE {
            proof {
                assert(self.carry@ + rest =~= carry0 + view@ + rest);
            }
            Ok(LINE_NEED_MORE)
        } else {
            Err(line_status(out.status, self.line_no + 1))
        }
    }

    /// A produced line may leave a carry holding further full lines;
    /// re-enter with an empty view until the carry stops producing.
    fn drain_carry(
        &mut self,
        rt: &LanguageRuntime,
        Ghost(rest): Ghost<Seq<u8>>,
        records: &mut Vec<CsvRecord>,
    ) -> (r: Result<(), IngestError>)
        requires
            old(self).carry@.len() <= LINE_CARRY_BYTES,
            old(self).line_no + old(self).carry@.len() <= old(self).stream_pos,
        ensures
            ({
                let before = csv_scan(
                    old(self).carry@ + rest,
                    old(self).line_no as nat,
                    old(self).view().carry_start(),
                );
                match r {
                    Ok(_) => {
                        let after = csv_scan(
                            final(self).carry@ + rest,
                            final(self).line_no as nat,
                            final(self).view().carry_start(),
                        );
                        &&& final(self).view().wf()
                        &&& final(self).stream_pos == old(self).stream_pos
                        &&& records_view(old(records)@) + before.records == records_view(
                            final(records)@,
                        ) + after.records
                        &&& before.error == after.error
                        &&& before.carry == after.carry
                        &&& final(self).line_no - old(self).line_no == final(records)@.len() - old(
                            records,
                        )@.len()
                    },
                    Err(e) => before.error == Some(e@),
                }
            }),
    {
        let empty: [u8; 0] = [];
        let ghost whole = csv_scan(self.carry@ + rest, self.line_no as nat, self.view().carry_start());
        let ghost line0 = self.line_no;
        let ghost len0 = records@.len();
        let ghost pos0 = self.stream_pos;
        let ghost recs0 = records_view(records@);
        loop
            invariant
                whole == csv_scan(
                    old(self).carry@ + rest,
                    old(self).line_no as nat,
                    old(self).view().carry_start(),
                ),
                recs0 == records_view(old(records)@),
                len0 == old(records)@.len(),
                line0 == old(self).line_no,
                pos0 == old(self).stream_pos,
                self.carry@.len() <= LINE_CARRY_BYTES,
                self.line_no + self.carry@.len() <= self.stream_pos,
                self.stream_pos == pos0,
                self.line_no - line0 == records@.len() - len0,
                ({
                    let now = csv_scan(self.carry@ + rest, self.line_no as nat, self.view().carry_start());
                    &&& recs0 + whole.records == records_view(records@) + now.records
                    &&& whole.error == now.error
                    &&& whole.carry == now.carry
                }),
            decreases self.carry@.len(),
        {
            if self.carry.len() == 0 {
                proof {
                    lemma_newline_free(self.carry@);
                }
                return Ok(());
            }
            proof {
                assert(self.carry@ + empty@ + rest =~= self.carry@ + rest);
            }
            let status = self.step_line(rt, &empty, Ghost(rest), records)?;
            if status == LINE_NEED_MORE {
                return Ok(());
            }
        }
    }

    /// Feed one chunk (any size; internally windowed to [`VIEW_BYTES`]).
    /// Returns the records completed by this chunk, in order.
    pub fn feed(&mut self, rt: &LanguageRuntime, chunk: &[u8]) -> (r: Result<
        Vec<CsvRecord>,
        IngestError,
    >)
        requires
            old(self).view().wf(),
            old(self).view().stream_pos + chunk@.len() <= u64::MAX,
        ensures
            ({
                let scan = feed_scan(old(self).view(), chunk@);
                match r {
                    Ok(recs) => {
                        &&& final(self).view().wf()
                        &&& scan.error is None
                        &&& records_view(recs@) == scan.records
                        &&& final(self).view() == after_feed(old(self).view(), chunk@, scan)
                    },
                    Err(e) => scan.error == Some(e@),
                }
            }),
    {
        let ghost whole = feed_scan(self.view(), chunk@);
        let ghost line0 = self.line_no;
        let ghost pos0 = self.stream_pos;
        let mut records: Vec<CsvRecord> = Vec::new();
        let mut off: usize = 0;
        assert(chunk@.skip(0) =~= chunk@);
        assert(records_view(records@) + whole.records =~= whole.records);
        while off < chunk.len()
            invariant
                whole == feed_scan(old(self).view(), chunk@),
                line0 == old(self).line_no,
                pos0 == old(self).stream_pos,
                self.view().wf(),
                off <= chunk@.len(),
                self.stream_pos == pos0 + off,
                pos0 + chunk@.len() <= u64::MAX,
                self.line_no - line0 == records@.len(),
                ({
                    let now = csv_scan(
                        self.carry@ + chunk@.skip(off as int),
                        self.line_no as nat,
                        self.view().carry_start(),
                    );
                    &&& whole.records == records_view(records@) + now.records
                    &&& whole.error == now.error
                    &&& whole.carry == now.carry
                }),
            decreases chunk@.len() - off,
        {
            let end: usize = if chunk.len() - off > VIEW_BYTES {
                off + VIEW_BYTES
            } else {
                chunk.len()
            };
            let view = &chunk[off..end];
            let ghost rest = chunk@.skip(end as int);
            proof {
                assert(view@ =~= chunk@.subrange(off as int, end as int));
                assert(self.carry@ + chunk@.skip(off as int) =~= self.carry@ + view@ + rest);
            }
            let ghost recs_before = records_view(records@);
            let status = self.step_line(rt, view, Ghost(rest), &mut records)?;
            if status == LINE_PRODUCED {
                self.drain_carry(rt, Ghost(rest), &mut records)?;
            }
            off = end;
        }
        proof {
            assert(chunk@.skip(off as int) =~= seq![]);
            assert(self.carry@ + seq![] =~= self.carry@);
            lemma_scan_waiting(self.carry@, self.line_no as nat, self.view().carry_start());
            assert(records_view(records@) + seq![] =~= records_view(records@));
        }
        Ok(records)
    }

    /// End of input: flush the final tail (or complete cleanly).
    pub fn finish(&mut self, rt: &LanguageRuntime) -> (r: Result<Vec<CsvRecord>, IngestError>)
        requires
            old(self).view().wf(),
        ensures
            ({
                let scan = finish_scan(old(self).view());
                match r {
                    Ok(recs) => {
                        &&& scan.error is None
                        &&& records_view(recs@) == scan.records
                        &&& final(self).view() == after_feed(old(self).view(), seq![], scan)
                        &&& final(self).view().wf()
                    },
                    Err(e) => scan.error == Some(e@),
                }
            }),
    {
        let empty: [u8; 0] = [];
        let mut records: Vec<CsvRecord> = Vec::new();
        let ghost carry0 = self.carry@;
        let ghost line0 = self.line_no;
        let ghost pos0 = self.stream_pos;
        proof {
            assert(carry0 + empty@ =~= carry0);
            lemma_newline_free(carry0);
        }
        loop
            invariant
                carry0 == old(self).carry@,
                line0 == old(self).line_no,
                pos0 == old(self).stream_pos,
                self.stream_pos == pos0,
                line0 + carry0.len() <= pos0,
                carry0.len() <= LINE_CARRY_BYTES,
                newline_free(carry0),
                first_newline(carry0) == carry0.len(),
                carry0 + empty@ == carry0,
                (records@.len() == 0 && self.carry@ == carry0 && self.line_no == line0) || (
                records@.len() == 1 && self.carry@.len() == 0 && self.line_no == line0 + 1
                    && carry0.len() > 0 && finish_scan(
                    ReaderView { carry: carry0, line_no: line0 as nat, stream_pos: pos0 as nat },
                ).records == records_view(records@)),
            decreases self.carry@.len(),
        {
            let carry_before = self.carry.len();
            let line_start: u64 = self.stream_pos - carry_before as u64;
            let out = match rt.next_line(self.carry.as_slice(), &empty, true) {
                Ok(out) => out,
                Err(e) => return Err(e),
            };
            self.carry = out.carry;
            self.stream_pos = self.stream_pos + out.consumed as u64;
            if out.status == LINE_PRODUCED {
                let rec = self.parse_line(rt, out.line.as_slice(), line_start)?;
                let ghost rv = rec@;
                records.push(rec);
                proof {
                    assert(records_view(records@) =~= seq![rv]);
                }
            } else if out.status == LINE_COMPLETE {
                proof {
                    if records@.len() == 0 {
                        assert(records_view(records@) =~= seq![]);
                    }
                }
                return Ok(records);
            } else {
                return Err(line_status(out.status, self.line_no + 1));
            }
        }
    }
}

impl Default for CsvReader {
    fn default() -> (r: Self)
        ensures
            r.view() == (ReaderView { carry: seq![], line_no: 0, stream_pos: 0 }),
    {
        CsvReader::new()
    }
}

} // verus!
