//! Extraction of typed pairs from a staged manifest document.
//!
//! A byte-level walk over the top-level object finds each pair: the raw
//! key between its quotes and the raw extent of its value (a string with
//! its quotes, a container with its brackets, or a run of scalar bytes).
//! Each pair is then typed: keys and string values are unescaped and bounded
//! (32 and 64 bytes), containers stay opaque spans, scalars must be `true`,
//! `false` or an integer of at most five digits with an optional `-`.

use vstd::prelude::*;

use crate::error::{ErrorView, IngestError};
use crate::language::nest::{
    is_blank, is_literal_byte, BACKSLASH, CLOSE_ARRAY, CLOSE_OBJECT, COLON, COMMA, OPEN_ARRAY,
    OPEN_OBJECT, QUOTE,
};
use crate::language::LanguageRuntime;
use crate::manifest::{ManifestPair, ManifestValue};
use crate::text::{decimal, decimal_u64};

verus! {

pub const WALK_START: u64 = 0;
pub const WALK_FIRST: u64 = 1;
pub const WALK_KEY: u64 = 2;
pub const WALK_COLON: u64 = 3;
pub const WALK_VALUE: u64 = 4;
pub const WALK_SKIP: u64 = 5;
pub const WALK_AFTER: u64 = 6;
pub const WALK_DONE: u64 = 7;
pub const WALK_NEXT: u64 = 8;
pub const WALK_LITERAL: u64 = 9;

pub const PAIR_OK: i64 = 0;
pub const PAIR_PAST_END: i64 = 1;
pub const PAIR_MALFORMED: i64 = 2;
pub const PAIR_OVERLONG: i64 = 3;

/// Bound on a staged document, in bytes.
pub const DOC_BYTES: usize = 512;
pub const KEY_BYTES: usize = 32;
pub const STRING_BYTES: usize = 64;

/// Where one pair stands in a document: the raw key between its quotes and
/// the raw extent of its value (end exclusive).
pub ghost struct PairSpan {
    pub key_start: nat,
    pub key_end: nat,
    pub value_start: nat,
    pub value_end: nat,
}

/// The state of the pair walk.
pub ghost struct WalkView {
    pub phase: nat,
    pub depth: nat,
    pub in_str: bool,
    pub esc: bool,
    pub key_start: nat,
    pub key_end: nat,
    pub value_start: nat,
    pub spans: Seq<PairSpan>,
}

pub open spec fn walk_start() -> WalkView {
    WalkView {
        phase: WALK_START as nat,
        depth: 0,
        in_str: false,
        esc: false,
        key_start: 0,
        key_end: 0,
        value_start: 0,
        spans: seq![],
    }
}

/// The value of the current pair ends at `end`.
pub open spec fn close_value(w: WalkView, end: nat) -> WalkView {
    WalkView {
        phase: WALK_AFTER as nat,
        depth: 0,
        in_str: false,
        esc: false,
        spans: w.spans.push(
            PairSpan {
                key_start: w.key_start,
                key_end: w.key_end,
                value_start: w.value_start,
                value_end: end,
            },
        ),
        ..w
    }
}

/// After a value: blanks, then a comma or the closing brace.
pub open spec fn after_value(w: WalkView, b: u8) -> Option<WalkView> {
    if is_blank(b) {
        Some(w)
    } else if b == COMMA {
        Some(WalkView { phase: WALK_NEXT as nat, ..w })
    } else if b == CLOSE_OBJECT {
        Some(WalkView { phase: WALK_DONE as nat, ..w })
    } else {
        None
    }
}

/// One byte `b`, at index `i`, of the walk.
pub open spec fn walk_step(w: WalkView, i: nat, b: u8) -> Option<WalkView> {
    if w.phase == WALK_START {
        if is_blank(b) {
            Some(w)
        } else if b == OPEN_OBJECT {
            Some(WalkView { phase: WALK_FIRST as nat, ..w })
        } else {
            None
        }
    } else if w.phase == WALK_FIRST || w.phase == WALK_NEXT {
        if is_blank(b) {
            Some(w)
        } else if b == QUOTE {
            Some(WalkView { phase: WALK_KEY as nat, key_start: i + 1, esc: false, ..w })
        } else if b == CLOSE_OBJECT && w.phase == WALK_FIRST {
            Some(WalkView { phase: WALK_DONE as nat, ..w })
        } else {
            None
        }
    } else if w.phase == WALK_KEY {
        if w.esc {
            Some(WalkView { esc: false, ..w })
        } else if b == BACKSLASH {
            Some(WalkView { esc: true, ..w })
        } else if b == QUOTE {
            Some(WalkView { phase: WALK_COLON as nat, key_end: i, ..w })
        } else {
            Some(w)
        }
    } else if w.phase == WALK_COLON {
        if is_blank(b) {
            Some(w)
        } else if b == COLON {
            Some(WalkView { phase: WALK_VALUE as nat, ..w })
        } else {
            None
        }
    } else if w.phase == WALK_VALUE {
        if is_blank(b) {
            Some(w)
        } else if b == QUOTE {
            Some(
                WalkView {
                    phase: WALK_SKIP as nat,
                    value_start: i,
                    depth: 0,
                    in_str: true,
                    esc: false,
                    ..w
                },
            )
        } else if b == OPEN_OBJECT || b == OPEN_ARRAY {
            Some(
                WalkView {
                    phase: WALK_SKIP as nat,
                    value_start: i,
                    depth: 1,
                    in_str: false,
                    esc: false,
                    ..w
                },
            )
        } else if is_literal_byte(b) {
            Some(WalkView { phase: WALK_LITERAL as nat, value_start: i, ..w })
        } else {
            None
        }
    } else if w.phase == WALK_SKIP {
        if w.in_str {
            if w.esc {
                Some(WalkView { esc: false, ..w })
            } else if b == BACKSLASH {
                Some(WalkView { esc: true, ..w })
            } else if b == QUOTE {
                if w.depth == 0 {
                    Some(close_value(w, i + 1))
                } else {
                    Some(WalkView { in_str: false, ..w })
                }
            } else {
                Some(w)
            }
        } else if b == QUOTE {
            Some(WalkView { in_str: true, esc: false, ..w })
        } else if b == OPEN_OBJECT || b == OPEN_ARRAY {
            Some(WalkView { depth: w.depth + 1, ..w })
        } else if b == CLOSE_OBJECT || b == CLOSE_ARRAY {
            if w.depth <= 1 {
                Some(close_value(w, i + 1))
            } else {
                Some(WalkView { depth: (w.depth - 1) as nat, ..w })
            }
        } else {
            Some(w)
        }
    } else if w.phase == WALK_LITERAL {
        if is_literal_byte(b) {
            Some(w)
        } else {
            after_value(close_value(w, i), b)
        }
    } else if w.phase == WALK_AFTER {
        after_value(w, b)
    } else if w.phase == WALK_DONE {
        if is_blank(b) {
            Some(w)
        } else {
            None
        }
    } else {
        None
    }
}

/// The walk from index `i` on.
pub open spec fn walk_from(doc: Seq<u8>, i: nat, w: WalkView) -> Option<WalkView>
    decreases doc.len() - i,
{
    if i >= doc.len() {
        Some(w)
    } else {
        match walk_step(w, i, doc[i as int]) {
            None => None,
            Some(next) => walk_from(doc, i + 1, next),
        }
    }
}

/// The pairs of a document whose top-level object closes cleanly.
pub open spec fn doc_pairs(doc: Seq<u8>) -> Option<Seq<PairSpan>> {
    match walk_from(doc, 0, walk_start()) {
        Some(w) => if w.phase == WALK_DONE {
            Some(w.spans)
        } else {
            None
        },
        None => None,
    }
}

/// The number of pairs, or `-1` for a document whose object does not close
/// cleanly.
pub open spec fn pair_count_of(doc: Seq<u8>) -> int {
    match doc_pairs(doc) {
        Some(ps) => ps.len() as int,
        None => -1,
    }
}

/// A pair span that reads within `doc`: the key before the value, and a
/// quoted value holding both its quotes.
pub open spec fn span_ok(doc: Seq<u8>, s: PairSpan) -> bool {
    &&& s.key_start <= s.key_end < s.value_start < s.value_end <= doc.len()
    &&& doc[s.value_start as int] == QUOTE ==> s.value_start + 2 <= s.value_end
}

/// What holds of the walk before index `i`.
pub open spec fn walk_inv(doc: Seq<u8>, i: nat, w: WalkView) -> bool {
    &&& i <= doc.len()
    &&& w.spans.len() <= i
    &&& forall|k: int| 0 <= k < w.spans.len() ==> span_ok(doc, #[trigger] w.spans[k])
        && w.spans[k].value_end <= i
    &&& w.phase == WALK_KEY ==> w.key_start <= i
    &&& (w.phase == WALK_COLON || w.phase == WALK_VALUE) ==> w.key_start <= w.key_end < i
    &&& (w.phase == WALK_SKIP || w.phase == WALK_LITERAL) ==> w.key_start <= w.key_end
        < w.value_start < i
    &&& w.phase == WALK_SKIP ==> (doc[w.value_start as int] == QUOTE <==> w.depth == 0)
    &&& (w.phase == WALK_SKIP && w.depth == 0) ==> w.in_str
    &&& w.phase == WALK_LITERAL ==> doc[w.value_start as int] != QUOTE
}

pub proof fn lemma_walk_step_inv(doc: Seq<u8>, i: nat, w: WalkView)
    requires
        i < doc.len(),
        walk_inv(doc, i, w),
        walk_step(w, i, doc[i as int]) is Some,
    ensures
        walk_inv(doc, i + 1, walk_step(w, i, doc[i as int]).unwrap()),
{
    let b = doc[i as int];
    let n = walk_step(w, i, b).unwrap();
    if w.phase == WALK_SKIP || w.phase == WALK_LITERAL {
        if n.spans.len() > w.spans.len() {
            assert forall|k: int| 0 <= k < n.spans.len() implies span_ok(doc, #[trigger] n.spans[k])
                && n.spans[k].value_end <= i + 1 by {
                if k < w.spans.len() {
                    assert(n.spans[k] == w.spans[k]);
                }
            }
        }
    }
}

pub proof fn lemma_walk_from_inv(doc: Seq<u8>, i: nat, w: WalkView)
    requires
        walk_inv(doc, i, w),
    ensures
        walk_from(doc, i, w) matches Some(r) ==> walk_inv(doc, doc.len(), r),
    decreases doc.len() - i,
{
    if i < doc.len() {
        match walk_step(w, i, doc[i as int]) {
            None => {},
            Some(next) => {
                lemma_walk_step_inv(doc, i, w);
                lemma_walk_from_inv(doc, i + 1, next);
            },
        }
    }
}

/// Every pair span of a document reads within it.
pub proof fn lemma_doc_pairs_ok(doc: Seq<u8>)
    ensures
        doc_pairs(doc) matches Some(ps) ==> forall|k: int| 0 <= k < ps.len() ==> span_ok(
            doc,
            #[trigger] ps[k],
        ),
{
    lemma_walk_from_inv(doc, 0, walk_start());
}

// ----- typing ------------------------------------------------------------

/// The byte an escape stands for.
pub open spec fn escape_value(b: u8) -> Option<u8> {
    if b == QUOTE {
        Some(QUOTE)
    } else if b == BACKSLASH {
        Some(BACKSLASH)
    } else if b == 110 {
        Some(10u8)
    } else if b == 116 {
        Some(9u8)
    } else {
        None
    }
}

/// Unescaping `doc[i..end]` after the bytes `acc`.
pub open spec fn unescape_from(doc: Seq<u8>, i: int, end: int, acc: Seq<u8>) -> Option<Seq<u8>>
    decreases end - i,
{
    if i >= end {
        Some(acc)
    } else if doc[i] == BACKSLASH {
        if i + 1 >= end {
            None
        } else {
            match escape_value(doc[i + 1]) {
                None => None,
                Some(c) => unescape_from(doc, i + 2, end, acc.push(c)),
            }
        }
    } else {
        unescape_from(doc, i + 1, end, acc.push(doc[i]))
    }
}

pub open spec fn is_digit(b: u8) -> bool {
    48 <= b <= 57
}

/// The value of a run of decimal digits.
pub open spec fn digits_value(ds: Seq<u8>) -> nat
    decreases ds.len(),
{
    if ds.len() == 0 {
        0
    } else {
        digits_value(ds.drop_last()) * 10 + (ds.last() - 48) as nat
    }
}

/// The digits of an integer scalar (after an optional `-`).
pub open spec fn digits_of(tok: Seq<u8>) -> Seq<u8> {
    if tok.len() > 0 && tok[0] == 45 {
        tok.skip(1)
    } else {
        tok
    }
}

/// An integer scalar: an optional `-`, then one to five digits.
pub open spec fn is_int_scalar(tok: Seq<u8>) -> bool {
    let ds = digits_of(tok);
    &&& 1 <= ds.len() <= 5
    &&& forall|j: int| 0 <= j < ds.len() ==> is_digit(#[trigger] ds[j])
}

pub open spec fn int_scalar_value(tok: Seq<u8>) -> int {
    if tok.len() > 0 && tok[0] == 45 {
        -digits_value(digits_of(tok))
    } else {
        digits_value(digits_of(tok)) as int
    }
}

/// The content of a [`ManifestValue`].
pub ghost enum ValueView {
    Str(Seq<u8>),
    Int(int),
    Bool(bool),
    Nested { start: nat, len: nat },
}

impl View for ManifestValue {
    type V = ValueView;

    open spec fn view(&self) -> ValueView {
        match self {
            ManifestValue::Str(bytes) => ValueView::Str(bytes@),
            ManifestValue::Int(n) => ValueView::Int(*n as int),
            ManifestValue::Bool(b) => ValueView::Bool(*b),
            ManifestValue::Nested { start, len } => ValueView::Nested {
                start: *start as nat,
                len: *len as nat,
            },
        }
    }
}

/// The content of a [`ManifestPair`].
pub ghost struct PairView {
    pub key: Seq<u8>,
    pub key_span: (nat, nat),
    pub value: ValueView,
    pub value_span: (nat, nat),
}

impl View for ManifestPair {
    type V = PairView;

    open spec fn view(&self) -> PairView {
        PairView {
            key: self.key@,
            key_span: (self.key_span.0 as nat, self.key_span.1 as nat),
            value: self.value@,
            value_span: (self.value_span.0 as nat, self.value_span.1 as nat),
        }
    }
}

/// A scalar typed: `true`, `false`, or an integer.
pub open spec fn scalar_value(tok: Seq<u8>) -> Option<ValueView> {
    if tok == seq![116u8, 114u8, 117u8, 101u8] {
        Some(ValueView::Bool(true))
    } else if tok == seq![102u8, 97u8, 108u8, 115u8, 101u8] {
        Some(ValueView::Bool(false))
    } else if is_int_scalar(tok) {
        Some(ValueView::Int(int_scalar_value(tok)))
    } else {
        None
    }
}

/// The typed value whose raw extent is `doc[start..end]`, or the status
/// that refuses it.
pub open spec fn typed_value(doc: Seq<u8>, start: nat, end: nat) -> Result<ValueView, i64> {
    let b = doc[start as int];
    if b == QUOTE {
        match unescape_from(doc, start + 1 as int, end - 1, seq![]) {
            None => Err(PAIR_MALFORMED),
            Some(s) => if s.len() > STRING_BYTES {
                Err(PAIR_OVERLONG)
            } else {
                Ok(ValueView::Str(s))
            },
        }
    } else if b == OPEN_OBJECT || b == OPEN_ARRAY {
        Ok(ValueView::Nested { start, len: (end - start) as nat })
    } else {
        match scalar_value(doc.subrange(start as int, end as int)) {
            None => Err(PAIR_MALFORMED),
            Some(v) => Ok(v),
        }
    }
}

/// The typed pair at `span`, or the status that refuses it: the key is
/// read first, then the value.
pub open spec fn typed_pair(doc: Seq<u8>, span: PairSpan) -> Result<PairView, i64> {
    match unescape_from(doc, span.key_start as int, span.key_end as int, seq![]) {
        None => Err(PAIR_MALFORMED),
        Some(key) => if key.len() > KEY_BYTES {
            Err(PAIR_OVERLONG)
        } else {
            match typed_value(doc, span.value_start, span.value_end) {
                Err(status) => Err(status),
                Ok(value) => Ok(
                    PairView {
                        key,
                        key_span: (span.key_start, key.len()),
                        value,
                        value_span: (span.value_start, (span.value_end - span.value_start) as nat),
                    },
                ),
            }
        },
    }
}

/// The pair at `index`, or the status that refuses it.
pub open spec fn pair_at_status(doc: Seq<u8>, index: nat) -> Result<PairView, i64> {
    match doc_pairs(doc) {
        None => Err(PAIR_MALFORMED),
        Some(ps) => if index >= ps.len() {
            Err(PAIR_PAST_END)
        } else {
            typed_pair(doc, ps[index as int])
        },
    }
}

/// The error that refuses pair `index` with `status`.
pub open spec fn pair_error(status: i64, index: nat) -> ErrorView {
    if status == PAIR_PAST_END {
        ErrorView::Language("pair past end"@)
    } else if status == PAIR_OVERLONG {
        ErrorView::Overlong {
            adapter: "manifest"@,
            detail: "pair "@ + decimal(index) + ": oversize key or string value"@,
        }
    } else {
        ErrorView::Malformed { adapter: "manifest"@, detail: "pair "@ + decimal(index) + ": malformed"@ }
    }
}

/// What extracting pair `index` yields.
pub open spec fn pair_at_spec(doc: Seq<u8>, index: nat) -> Result<PairView, ErrorView> {
    match pair_at_status(doc, index) {
        Ok(p) => Ok(p),
        Err(status) => Err(pair_error(status, index)),
    }
}

// ----- executable walk ---------------------------------------------------

#[derive(Clone, Copy)]
struct Span {
    key_start: usize,
    key_end: usize,
    value_start: usize,
    value_end: usize,
}

impl View for Span {
    type V = PairSpan;

    closed spec fn view(&self) -> PairSpan {
        PairSpan {
            key_start: self.key_start as nat,
            key_end: self.key_end as nat,
            value_start: self.value_start as nat,
            value_end: self.value_end as nat,
        }
    }
}

spec fn spans_view(v: Seq<Span>) -> Seq<PairSpan> {
    v.map_values(|s: Span| s@)
}

struct Walk {
    phase: u64,
    depth: usize,
    in_str: bool,
    esc: bool,
    key_start: usize,
    key_end: usize,
    value_start: usize,
    spans: Vec<Span>,
}

impl Walk {
    spec fn view(&self) -> WalkView {
        WalkView {
            phase: self.phase as nat,
            depth: self.depth as nat,
            in_str: self.in_str,
            esc: self.esc,
            key_start: self.key_start as nat,
            key_end: self.key_end as nat,
            value_start: self.value_start as nat,
            spans: spans_view(self.spans@),
        }
    }

    /// The current value ends at `end`.
    fn close(&mut self, end: usize)
        ensures
            final(self).view() == close_value(old(self).view(), end as nat),
    {
        let span = Span {
            key_start: self.key_start,
            key_end: self.key_end,
            value_start: self.value_start,
            value_end: end,
        };
        let ghost before = self.spans@;
        self.spans.push(span);
        assert(spans_view(self.spans@) =~= spans_view(before).push(span@));
        self.phase = WALK_AFTER;
        self.depth = 0;
        self.in_str = false;
        self.esc = false;
    }

    fn after(&mut self, b: u8) -> (ok: bool)
        ensures
            ok == after_value(old(self).view(), b) is Some,
            ok ==> final(self).view() == after_value(old(self).view(), b).unwrap(),
    {
        if b == 32 || b == 9 || b == 10 || b == 13 {
            true
        } else if b == COMMA {
            self.phase = WALK_NEXT;
            true
        } else if b == CLOSE_OBJECT {
            self.phase = WALK_DONE;
            true
        } else {
            false
        }
    }

    /// One byte `b` at index `i`.
    fn step(&mut self, i: usize, b: u8) -> (ok: bool)
        requires
            old(self).depth <= i,
            i < usize::MAX,
        ensures
            ok == walk_step(old(self).view(), i as nat, b) is Some,
            ok ==> final(self).view() == walk_step(old(self).view(), i as nat, b).unwrap(),
            ok ==> final(self).depth <= i + 1,
    {
        let blank = b == 32 || b == 9 || b == 10 || b == 13;
        let literal = (97 <= b && b <= 122) || (65 <= b && b <= 90) || (48 <= b && b <= 57) || b
            == 45 || b == 43 || b == 46;
        if self.phase == WALK_START {
            if blank {
                true
            } else if b == OPEN_OBJECT {
                self.phase = WALK_FIRST;
                true
            } else {
                false
            }
        } else if self.phase == WALK_FIRST || self.phase == WALK_NEXT {
            if blank {
                true
            } else if b == QUOTE {
                self.phase = WALK_KEY;
                self.key_start = i + 1;
                self.esc = false;
                true
            } else if b == CLOSE_OBJECT && self.phase == WALK_FIRST {
                self.phase = WALK_DONE;
                true
            } else {
                false
            }
        } else if self.phase == WALK_KEY {
            if self.esc {
                self.esc = false;
            } else if b == BACKSLASH {
                self.esc = true;
            } else if b == QUOTE {
                self.phase = WALK_COLON;
                self.key_end = i;
            }
            true
        } else if self.phase == WALK_COLON {
            if blank {
                true
            } else if b == COLON {
                self.phase = WALK_VALUE;
                true
            } else {
                false
            }
        } else if self.phase == WALK_VALUE {
            if blank {
                true
            } else if b == QUOTE {
                self.phase = WALK_SKIP;
                self.value_start = i;
                self.depth = 0;
                self.in_str = true;
                self.esc = false;
                true
            } else if b == OPEN_OBJECT || b == OPEN_ARRAY {
                self.phase = WALK_SKIP;
                self.value_start = i;
                self.depth = 1;
                self.in_str = false;
                self.esc = false;
                true
            } else if literal {
                self.phase = WALK_LITERAL;
                self.value_start = i;
                true
            } else {
                false
            }
        } else if self.phase == WALK_SKIP {
            if self.in_str {
                if self.esc {
                    self.esc = false;
                } else if b == BACKSLASH {
                    self.esc = true;
                } else if b == QUOTE {
                    if self.depth == 0 {
                        self.close(i + 1);
                    } else {
                        self.in_str = false;
                    }
                }
            } else if b == QUOTE {
                self.in_str = true;
                self.esc = false;
            } else if b == OPEN_OBJECT || b == OPEN_ARRAY {
                self.depth = self.depth + 1;
            } else if b == CLOSE_OBJECT || b == CLOSE_ARRAY {
                if self.depth <= 1 {
                    self.close(i + 1);
                } else {
                    self.depth = self.depth - 1;
                }
            }
            true
        } else if self.phase == WALK_LITERAL {
            if literal {
                true
            } else {
                self.close(i);
                self.after(b)
            }
        } else if self.phase == WALK_AFTER {
            self.after(b)
        } else if self.phase == WALK_DONE {
            blank
        } else {
            false
        }
    }
}

/// The pair spans of `doc`, when its object closes cleanly.
fn doc_spans(doc: &[u8]) -> (r: Option<Vec<Span>>)
    requires
        doc@.len() <= DOC_BYTES,
    ensures
        match doc_pairs(doc@) {
            Some(ps) => r matches Some(v) && spans_view(v@) == ps && v@.len() == ps.len()
                && ps.len() <= doc@.len(),
            None => r is None,
        },
{
    let mut w = Walk {
        phase: WALK_START,
        depth: 0,
        in_str: false,
        esc: false,
        key_start: 0,
        key_end: 0,
        value_start: 0,
        spans: Vec::new(),
    };
    assert(spans_view(w.spans@) =~= seq![]);
    assert(w.view() =~= walk_start());
    let mut i: usize = 0;
    while i < doc.len()
        invariant
            doc@.len() <= DOC_BYTES,
            i <= doc@.len(),
            w.depth <= i,
            walk_inv(doc@, i as nat, w.view()),
            walk_from(doc@, i as nat, w.view()) == walk_from(doc@, 0, walk_start()),
        decreases doc@.len() - i,
    {
        let ghost before = w.view();
        if !w.step(i, doc[i]) {
            return None;
        }
        proof {
            lemma_walk_step_inv(doc@, i as nat, before);
        }
        i += 1;
    }
    if w.phase == WALK_DONE {
        assert(spans_view(w.spans@).len() == w.spans@.len());
        Some(w.spans)
    } else {
        None
    }
}

/// `doc[i..end]` unescaped, or `None` on a bad escape.
fn unescape(doc: &[u8], start: usize, end: usize) -> (r: Option<Vec<u8>>)
    requires
        start <= end <= doc@.len(),
    ensures
        match unescape_from(doc@, start as int, end as int, seq![]) {
            Some(s) => r matches Some(v) && v@ == s,
            None => r is None,
        },
{
    let mut out: Vec<u8> = Vec::new();
    let mut i: usize = start;
    while i < end
        invariant
            start <= end <= doc@.len(),
            start <= i,
            unescape_from(doc@, i as int, end as int, out@) == unescape_from(
                doc@,
                start as int,
                end as int,
                seq![],
            ),
        decreases end - i,
    {
        if doc[i] == BACKSLASH {
            if i + 1 >= end {
                return None;
            }
            let e = doc[i + 1];
            let c: u8 = if e == QUOTE {
                QUOTE
            } else if e == BACKSLASH {
                BACKSLASH
            } else if e == 110 {
                10
            } else if e == 116 {
                9
            } else {
                return None;
            };
            out.push(c);
            i = i + 2;
        } else {
            out.push(doc[i]);
            i = i + 1;
        }
    }
    Some(out)
}

/// The typed scalar `doc[start..end]`.
fn scalar(doc: &[u8], start: usize, end: usize) -> (r: Option<ManifestValue>)
    requires
        start <= end <= doc@.len(),
    ensures
        match scalar_value(doc@.subrange(start as int, end as int)) {
            Some(v) => r matches Some(m) && m@ == v,
            None => r is None,
        },
{
    let ghost tok = doc@.subrange(start as int, end as int);
    let len = end - start;
    if len == 4 && doc[start] == 116 && doc[start + 1] == 114 && doc[start + 2] == 117 && doc[start
        + 3] == 101 {
        assert(tok =~= seq![116u8, 114u8, 117u8, 101u8]);
        return Some(ManifestValue::Bool(true));
    }
    if len == 5 && doc[start] == 102 && doc[start + 1] == 97 && doc[start + 2] == 108 && doc[start
        + 3] == 115 && doc[start + 4] == 101 {
        assert(tok =~= seq![102u8, 97u8, 108u8, 115u8, 101u8]);
        return Some(ManifestValue::Bool(false));
    }
    assert(tok != seq![116u8, 114u8, 117u8, 101u8]) by {
        if tok == seq![116u8, 114u8, 117u8, 101u8] {
            assert(tok.len() == 4);
            assert(tok[0] == 116 && tok[1] == 114 && tok[2] == 117 && tok[3] == 101);
        }
    }
    assert(tok != seq![102u8, 97u8, 108u8, 115u8, 101u8]) by {
        if tok == seq![102u8, 97u8, 108u8, 115u8, 101u8] {
            assert(tok.len() == 5);
            assert(tok[0] == 102 && tok[1] == 97 && tok[2] == 108 && tok[3] == 115 && tok[4] == 101);
        }
    }
    let negative = len > 0 && doc[start] == 45;
    let first: usize = if negative {
        start + 1
    } else {
        start
    };
    let ghost ds = digits_of(tok);
    assert(ds =~= doc@.subrange(first as int, end as int));
    let count = end - first;
    if count < 1 || count > 5 {
        return None;
    }
    let mut value: i64 = 0;
    let mut j: usize = first;
    assert(ds.take(0) =~= seq![]);
    while j < end
        invariant
            start <= first <= j <= end <= doc@.len(),
            1 <= end - first <= 5,
            tok == doc@.subrange(start as int, end as int),
            ds == digits_of(tok),
            ds == doc@.subrange(first as int, end as int),
            tok != seq![116u8, 114u8, 117u8, 101u8],
            tok != seq![102u8, 97u8, 108u8, 115u8, 101u8],
            negative == (tok.len() > 0 && tok[0] == 45),
            forall|k: int| 0 <= k < j - first ==> is_digit(#[trigger] ds[k]),
            value == digits_value(ds.take(j - first)),
            value < pow10((j - first) as nat),
        decreases end - j,
    {
        let b = doc[j];
        if b < 48 || b > 57 {
            assert(!is_digit(ds[j - first]));
            return None;
        }
        proof {
            lemma_pow10_bound((j - first + 1) as nat);
        }
        assert(ds.take(j - first + 1).drop_last() =~= ds.take(j - first));
        value = value * 10 + (b - 48) as i64;
        j = j + 1;
    }
    assert(ds.take(ds.len() as int) =~= ds);
    if negative {
        Some(ManifestValue::Int(-value))
    } else {
        Some(ManifestValue::Int(value))
    }
}

pub proof fn lemma_pow10_bound(k: nat)
    requires
        k <= 5,
    ensures
        pow10(k) <= 100000,
{
    reveal_with_fuel(pow10, 6);
}

/// Ten to the power `k`.
pub open spec fn pow10(k: nat) -> nat
    decreases k,
{
    if k == 0 {
        1
    } else {
        10 * pow10((k - 1) as nat)
    }
}

/// The typed pair at `span`, or the refusing status.
fn decode_pair(doc: &[u8], span: Span) -> (r: Result<ManifestPair, i64>)
    requires
        span_ok(doc@, span@),
    ensures
        match typed_pair(doc@, span@) {
            Ok(p) => r matches Ok(m) && m@ == p,
            Err(status) => r matches Err(s) && s == status,
        },
{
    let key = match unescape(doc, span.key_start, span.key_end) {
        None => return Err(PAIR_MALFORMED),
        Some(k) => k,
    };
    if key.len() > KEY_BYTES {
        return Err(PAIR_OVERLONG);
    }
    let vs = span.value_start;
    let ve = span.value_end;
    let b = doc[vs];
    let value = if b == QUOTE {
        match unescape(doc, vs + 1, ve - 1) {
            None => return Err(PAIR_MALFORMED),
            Some(s) => {
                if s.len() > STRING_BYTES {
                    return Err(PAIR_OVERLONG);
                }
                ManifestValue::Str(s)
            },
        }
    } else if b == OPEN_OBJECT || b == OPEN_ARRAY {
        ManifestValue::Nested { start: vs as u64, len: (ve - vs) as u64 }
    } else {
        match scalar(doc, vs, ve) {
            None => return Err(PAIR_MALFORMED),
            Some(v) => v,
        }
    };
    let key_len = key.len();
    Ok(
        ManifestPair {
            key,
            key_span: (span.key_start as u64, key_len as u64),
            value,
            value_span: (vs as u64, (ve - vs) as u64),
        },
    )
}

fn pair_message(index: u64, what: &str) -> (r: String)
    ensures
        r@ == "pair "@ + decimal(index as nat) + what@,
{
    let mut detail = String::from_str("pair ");
    let number = decimal_u64(index);
    detail.append(number.as_str());
    detail.append(what);
    detail
}

impl LanguageRuntime {
    /// The number of top-level pairs of `doc`, or `-1` when its object does
    /// not close cleanly.
    pub fn pair_count(&self, doc: &[u8]) -> (r: Result<i64, IngestError>)
        requires
            doc@.len() <= DOC_BYTES,
        ensures
            r matches Ok(n) && n == pair_count_of(doc@),
    {
        match doc_spans(doc) {
            Some(v) => Ok(v.len() as i64),
            None => Ok(-1),
        }
    }

    /// The typed pair at `index` of `doc`.
    pub fn pair_at(&self, doc: &[u8], index: u64) -> (r: Result<ManifestPair, IngestError>)
        requires
            doc@.len() <= DOC_BYTES,
        ensures
            match pair_at_spec(doc@, index as nat) {
                Ok(p) => r matches Ok(m) && m@ == p,
                Err(e) => r matches Err(x) && x@ == e,
            },
    {
        proof {
            lemma_doc_pairs_ok(doc@);
        }
        let status = match doc_spans(doc) {
            None => PAIR_MALFORMED,
            Some(spans) => {
                if index >= spans.len() as u64 {
                    PAIR_PAST_END
                } else {
                    let span = spans[index as usize];
                    assert(span@ == spans_view(spans@)[index as int]);
                    match decode_pair(doc, span) {
                        Ok(pair) => return Ok(pair),
                        Err(s) => s,
                    }
                }
            },
        };
        if status == PAIR_PAST_END {
            Err(crate::error::language("pair past end"))
        } else if status == PAIR_OVERLONG {
            let detail = pair_message(index, ": oversize key or string value");
            Err(crate::error::overlong("manifest", detail.as_str()))
        } else {
            let detail = pair_message(index, ": malformed");
            Err(IngestError::malformed("manifest", detail.as_str()))
        }
    }
}

} // verus!
