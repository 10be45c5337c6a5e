//! Ingest policy: the closed vocabulary, participant validation,
//! semantic equality over canonical codes and spellings, and ordering.
//!
//! [`LanguageRuntime`] is the single handle through which adapters and
//! stream readers obtain every classification, validation, equality,
//! ordering and framing verdict. Adapters transport bytes to it; they never
//! decide meaning themselves.

pub mod fields;
pub mod frames;
pub mod lines;
pub mod nest;
pub mod pairs;
pub mod status;

use vstd::prelude::*;
use vstd::multiset::*;

use crate::error::{language, ErrorView, IngestError};

verus! {

/// Handle for the ingest policy verdicts.
#[derive(Debug, Clone, Copy)]
pub struct LanguageRuntime;

/// Verdict of the bounded transfer grammar (`status` plus role spans;
/// spans are `(start, length)` byte ranges into the input).
#[derive(Debug, Clone, Copy, PartialEq, Eq)]
pub struct TransferParse {
    pub status: i64,
    pub verb: i64,
    pub verb_span: Option<(u64, u64)>,
    pub source: Option<(u64, u64)>,
    pub target: Option<(u64, u64)>,
    pub object_code: i64,
    pub object: Option<(u64, u64)>,
    pub quantity: i64,
    pub quantity_present: bool,
    pub quantity_span: Option<(u64, u64)>,
}

impl TransferParse {
    pub fn ok(&self) -> (r: bool)
        ensures
            r == (self.status == 0),
    {
        self.status == 0
    }
}

/// Outcome of one line step: its status (see the `LINE_` constants of
/// [`lines`]), the line it yields, the carry, and how many view bytes it
/// took.
#[derive(Debug, Clone, PartialEq, Eq)]
pub struct LineOut {
    pub status: i64,
    pub line: Vec<u8>,
    pub line_len: usize,
    pub carry: Vec<u8>,
    pub carry_len: usize,
    pub consumed: usize,
}

/// Outcome of one frame step: its status (see the `FRAME_` constants of
/// [`frames`]), the frame fields, the carry, and how many view bytes it
/// took.
#[derive(Debug, Clone, PartialEq, Eq)]
pub struct FrameOut {
    pub status: i64,
    pub version: u64,
    pub kind: u64,
    pub payload: Vec<u8>,
    pub payload_len: usize,
    pub frame_len: usize,
    pub carry: Vec<u8>,
    pub carry_len: usize,
    pub consumed: usize,
}

/// Outcome of one field step: its status (see the `FIELD_` constants of
/// [`fields`]), the unescaped value, and where the next field starts.
#[derive(Debug, Clone, PartialEq, Eq)]
pub struct FieldOut {
    pub status: i64,
    pub value: Vec<u8>,
    pub value_len: usize,
    pub next_start: u64,
    pub has_more: bool,
}

/// One observation of executing the ordering witness on a backend.
#[derive(Debug, Clone, PartialEq, Eq)]
pub struct BackendObservation {
    pub backend: String,
    pub compilation: String,
    pub execution: String,
    pub note: String,
}

// ----- vocabulary -------------------------------------------------------

pub const WORD_TRANSFER: [u8; 8] = [116, 114, 97, 110, 115, 102, 101, 114];
pub const WORD_GAVE: [u8; 4] = [103, 97, 118, 101];
pub const WORD_GIVE: [u8; 4] = [103, 105, 118, 101];
pub const WORD_GIVES: [u8; 5] = [103, 105, 118, 101, 115];
pub const WORD_RECEIVED: [u8; 8] = [114, 101, 99, 101, 105, 118, 101, 100];
pub const WORD_RECEIVE: [u8; 7] = [114, 101, 99, 101, 105, 118, 101];
pub const WORD_RECEIVES: [u8; 8] = [114, 101, 99, 101, 105, 118, 101, 115];
pub const WORD_FROM: [u8; 4] = [102, 114, 111, 109];
pub const WORD_APPLE: [u8; 5] = [97, 112, 112, 108, 101];
pub const WORD_APPLES: [u8; 6] = [97, 112, 112, 108, 101, 115];
pub const WORD_ORANGE: [u8; 6] = [111, 114, 97, 110, 103, 101];
pub const WORD_ORANGES: [u8; 7] = [111, 114, 97, 110, 103, 101, 115];
pub const WORD_ZERO: [u8; 4] = [122, 101, 114, 111];
pub const WORD_ONE: [u8; 3] = [111, 110, 101];
pub const WORD_TWO: [u8; 3] = [116, 119, 111];
pub const WORD_THREE: [u8; 5] = [116, 104, 114, 101, 101];
pub const WORD_FOUR: [u8; 4] = [102, 111, 117, 114];
pub const WORD_FIVE: [u8; 4] = [102, 105, 118, 101];
pub const WORD_SIX: [u8; 3] = [115, 105, 120];
pub const WORD_SEVEN: [u8; 5] = [115, 101, 118, 101, 110];
pub const WORD_EIGHT: [u8; 5] = [101, 105, 103, 104, 116];
pub const WORD_NINE: [u8; 4] = [110, 105, 110, 101];
pub const WORD_TEN: [u8; 3] = [116, 101, 110];

/// ASCII lower-casing of one byte.
pub open spec fn ascii_lower(b: u8) -> u8 {
    if 65 <= b <= 90 {
        (b + 32) as u8
    } else {
        b
    }
}

/// ASCII case-insensitive equality of two byte strings.
pub open spec fn eq_ignore_case(a: Seq<u8>, b: Seq<u8>) -> bool {
    &&& a.len() == b.len()
    &&& forall|i: int| 0 <= i < a.len() ==> ascii_lower(#[trigger] a[i]) == ascii_lower(b[i])
}

pub fn eq_ci<const N: usize>(word: &[u8], lit: &[u8; N]) -> (r: bool)
    ensures
        r == eq_ignore_case(word@, lit@),
{
    if word.len() != N {
        return false;
    }
    let mut i: usize = 0;
    while i < N
        invariant
            i <= N,
            word@.len() == N,
            lit@.len() == N,
            forall|j: int| 0 <= j < i ==> ascii_lower(#[trigger] word@[j]) == ascii_lower(lit@[j]),
        decreases N - i,
    {
        let a = word[i];
        let b = lit[i];
        let la: u8 = if 65 <= a && a <= 90 { a + 32 } else { a };
        let lb: u8 = if 65 <= b && b <= 90 { b + 32 } else { b };
        if la != lb {
            return false;
        }
        i += 1;
    }
    true
}

pub open spec fn is_active_verb(w: Seq<u8>) -> bool {
    eq_ignore_case(w, WORD_GAVE@) || eq_ignore_case(w, WORD_GIVE@) || eq_ignore_case(
        w,
        WORD_GIVES@,
    )
}

pub open spec fn is_passive_verb(w: Seq<u8>) -> bool {
    eq_ignore_case(w, WORD_RECEIVED@) || eq_ignore_case(w, WORD_RECEIVE@) || eq_ignore_case(
        w,
        WORD_RECEIVES@,
    )
}

/// Canonical event code of an event word: `1` (transfer) for `transfer`
/// and the transfer verbs, `0` otherwise.
pub open spec fn event_code_of(w: Seq<u8>) -> i64 {
    if eq_ignore_case(w, WORD_TRANSFER@) || is_active_verb(w) || is_passive_verb(w) {
        1
    } else {
        0
    }
}

/// Canonical object code of an object word: `1` apple(s), `2` orange(s),
/// `0` outside the closed vocabulary.
pub open spec fn object_code_of(w: Seq<u8>) -> i64 {
    if eq_ignore_case(w, WORD_APPLE@) || eq_ignore_case(w, WORD_APPLES@) {
        1
    } else if eq_ignore_case(w, WORD_ORANGE@) || eq_ignore_case(w, WORD_ORANGES@) {
        2
    } else {
        0
    }
}

/// Value of a number word `zero`..`ten`, if it is one.
pub open spec fn number_word_value(w: Seq<u8>) -> Option<u64> {
    if eq_ignore_case(w, WORD_ZERO@) {
        Some(0)
    } else if eq_ignore_case(w, WORD_ONE@) {
        Some(1)
    } else if eq_ignore_case(w, WORD_TWO@) {
        Some(2)
    } else if eq_ignore_case(w, WORD_THREE@) {
        Some(3)
    } else if eq_ignore_case(w, WORD_FOUR@) {
        Some(4)
    } else if eq_ignore_case(w, WORD_FIVE@) {
        Some(5)
    } else if eq_ignore_case(w, WORD_SIX@) {
        Some(6)
    } else if eq_ignore_case(w, WORD_SEVEN@) {
        Some(7)
    } else if eq_ignore_case(w, WORD_EIGHT@) {
        Some(8)
    } else if eq_ignore_case(w, WORD_NINE@) {
        Some(9)
    } else if eq_ignore_case(w, WORD_TEN@) {
        Some(10)
    } else {
        None
    }
}

pub fn active_verb(w: &[u8]) -> (r: bool)
    ensures
        r == is_active_verb(w@),
{
    eq_ci(w, &WORD_GAVE) || eq_ci(w, &WORD_GIVE) || eq_ci(w, &WORD_GIVES)
}

pub fn passive_verb(w: &[u8]) -> (r: bool)
    ensures
        r == is_passive_verb(w@),
{
    eq_ci(w, &WORD_RECEIVED) || eq_ci(w, &WORD_RECEIVE) || eq_ci(w, &WORD_RECEIVES)
}

pub fn number_word(w: &[u8]) -> (r: Option<u64>)
    ensures
        r == number_word_value(w@),
{
    if eq_ci(w, &WORD_ZERO) {
        Some(0)
    } else if eq_ci(w, &WORD_ONE) {
        Some(1)
    } else if eq_ci(w, &WORD_TWO) {
        Some(2)
    } else if eq_ci(w, &WORD_THREE) {
        Some(3)
    } else if eq_ci(w, &WORD_FOUR) {
        Some(4)
    } else if eq_ci(w, &WORD_FIVE) {
        Some(5)
    } else if eq_ci(w, &WORD_SIX) {
        Some(6)
    } else if eq_ci(w, &WORD_SEVEN) {
        Some(7)
    } else if eq_ci(w, &WORD_EIGHT) {
        Some(8)
    } else if eq_ci(w, &WORD_NINE) {
        Some(9)
    } else if eq_ci(w, &WORD_TEN) {
        Some(10)
    } else {
        None
    }
}

pub fn object_code(w: &[u8]) -> (r: i64)
    ensures
        r == object_code_of(w@),
{
    if eq_ci(w, &WORD_APPLE) || eq_ci(w, &WORD_APPLES) {
        1
    } else if eq_ci(w, &WORD_ORANGE) || eq_ci(w, &WORD_ORANGES) {
        2
    } else {
        0
    }
}

// ----- validation and equality ----------------------------------------

/// Participant validation: `0` ok, `1` unsupported event, `2` missing
/// source or target, `3` quantity outside `0..=999`.
pub open spec fn validate_spec(
    event: i64,
    src_present: bool,
    tgt_present: bool,
    qty_present: bool,
    qty: i64,
) -> i64 {
    if event != 1 {
        1
    } else if !src_present || !tgt_present {
        2
    } else if qty_present && !(0 <= qty <= 999) {
        3
    } else {
        0
    }
}

/// Validation of a transfer with both participants present accepts
/// exactly the quantities `0..=999` and an absent quantity; a quantity
/// outside that range is refused with status 3 and for no other reason.
/// Any other event is unsupported (status 1) whatever the rest.
pub proof fn lemma_validate_quantity_range(event: i64, q: i64)
    ensures
        validate_spec(1, true, true, true, q) == 0 <==> 0 <= q <= 999,
        validate_spec(1, true, true, true, q) == 3 <==> (q < 0 || q > 999),
        validate_spec(1, true, true, false, q) == 0,
        event != 1 ==> validate_spec(event, true, true, true, q) == 1,
{
}

/// Equality over canonical codes: same event, same object code, and the
/// same quantity (both absent, or both present with equal values).
pub open spec fn codes_equal_spec(
    a_event: i64,
    a_object: i64,
    a_qty_present: bool,
    a_qty: i64,
    b_event: i64,
    b_object: i64,
    b_qty_present: bool,
    b_qty: i64,
) -> bool {
    &&& a_event == b_event
    &&& a_object == b_object
    &&& a_qty_present == b_qty_present
    &&& (a_qty_present ==> a_qty == b_qty)
}

/// Non-decreasing order of a code sequence.
pub open spec fn sorted_codes(s: Seq<u64>) -> bool {
    forall|i: int, j: int| 0 <= i <= j < s.len() ==> s[i] <= s[j]
}

/// Ordering verdicts work on windows of at most this many codes.
pub const MAX_CODES: usize = 8;

impl LanguageRuntime {
    pub fn classify_event(&self, word: &[u8]) -> (r: Result<i64, IngestError>)
        ensures
            r == Ok::<i64, IngestError>(event_code_of(word@)),
    {
        if eq_ci(word, &WORD_TRANSFER) || active_verb(word) || passive_verb(word) {
            Ok(1)
        } else {
            Ok(0)
        }
    }

    pub fn classify_object(&self, word: &[u8]) -> (r: Result<i64, IngestError>)
        ensures
            r == Ok::<i64, IngestError>(object_code_of(word@)),
    {
        Ok(object_code(word))
    }

    pub fn validate(
        &self,
        event: i64,
        src_present: bool,
        tgt_present: bool,
        qty_present: bool,
        qty: i64,
    ) -> (r: Result<i64, IngestError>)
        ensures
            r == Ok::<i64, IngestError>(
                validate_spec(event, src_present, tgt_present, qty_present, qty),
            ),
    {
        if event != 1 {
            Ok(1)
        } else if !src_present || !tgt_present {
            Ok(2)
        } else if qty_present && !(0 <= qty && qty <= 999) {
            Ok(3)
        } else {
            Ok(0)
        }
    }

    pub fn codes_equal(
        &self,
        a_event: i64,
        a_object: i64,
        a_qty_present: bool,
        a_qty: i64,
        b_event: i64,
        b_object: i64,
        b_qty_present: bool,
        b_qty: i64,
    ) -> (r: Result<bool, IngestError>)
        ensures
            r == Ok::<bool, IngestError>(
                codes_equal_spec(
                    a_event,
                    a_object,
                    a_qty_present,
                    a_qty,
                    b_event,
                    b_object,
                    b_qty_present,
                    b_qty,
                ),
            ),
    {
        Ok(a_event == b_event && a_object == b_object && a_qty_present == b_qty_present && (
        !a_qty_present || a_qty == b_qty))
    }

    /// Byte-exact spelling equality.
    pub fn spell_equal(&self, a: &[u8], b: &[u8]) -> (r: Result<bool, IngestError>)
        ensures
            r == Ok::<bool, IngestError>(a@ == b@),
    {
        Ok(crate::text::bytes_eq(a, b))
    }

    /// Deterministic ascending ordering of at most eight codes.
    pub fn sort_codes(&self, codes: &[u64]) -> (r: Result<Vec<u64>, IngestError>)
        ensures
            codes@.len() <= MAX_CODES ==> (r matches Ok(v) && sorted_codes(v@)
                && v@.to_multiset() == codes@.to_multiset()),
            codes@.len() > MAX_CODES ==> (r matches Err(e) && e@ == ErrorView::Language(
                "ordering window holds at most 8 codes"@,
            )),
    {
        broadcast use vstd::seq_lib::group_to_multiset_ensures;

        if codes.len() > MAX_CODES {
            return Err(language("ordering window holds at most 8 codes"));
        }
        let mut out: Vec<u64> = Vec::new();
        let mut i: usize = 0;
        while i < codes.len()
            invariant
                i <= codes@.len(),
                sorted_codes(out@),
                out@.to_multiset() == codes@.take(i as int).to_multiset(),
            decreases codes@.len() - i,
        {
            let c = codes[i];
            let mut pos: usize = 0;
            while pos < out.len() && out[pos] <= c
                invariant
                    pos <= out@.len(),
                    forall|k: int| 0 <= k < pos ==> out@[k] <= c,
                decreases out@.len() - pos,
            {
                pos += 1;
            }
            let ghost before = out@;
            out.insert(pos, c);
            proof {
                vstd::seq_lib::to_multiset_insert(before, pos as int, c);
                assert(codes@.take(i + 1) =~= codes@.take(i as int).push(c));
                vstd::seq_lib::to_multiset_build(codes@.take(i as int), c);
                assert forall|a: int, b: int| 0 <= a <= b < out@.len() implies out@[a]
                    <= out@[b] by {
                    if a < pos as int && b > pos as int {
                        assert(before[a] <= before[b - 1]);
                    }
                    if a > pos as int {
                        assert(before[a - 1] <= before[b - 1]);
                    }
                    if b < pos as int {
                        assert(before[a] <= before[b]);
                    }
                    if a == pos as int && b > pos as int {
                        if pos < before.len() {
                            assert(c < before[pos as int]);
                            assert(before[pos as int] <= before[b - 1]);
                        }
                    }
                }
            }
            i += 1;
        }
        assert(codes@.take(codes@.len() as int) =~= codes@);
        Ok(out)
    }

    /// Whether at most eight codes are in non-decreasing order.
    pub fn is_sorted(&self, codes: &[u64]) -> (r: Result<bool, IngestError>)
        ensures
            codes@.len() <= MAX_CODES ==> r == Ok::<bool, IngestError>(sorted_codes(codes@)),
            codes@.len() > MAX_CODES ==> (r matches Err(e) && e@ == ErrorView::Language(
                "ordering window holds at most 8 codes"@,
            )),
    {
        if codes.len() > MAX_CODES {
            return Err(language("ordering window holds at most 8 codes"));
        }
        let mut i: usize = 1;
        if codes.len() == 0 {
            return Ok(true);
        }
        while i < codes.len()
            invariant
                1 <= i <= codes@.len(),
                codes@.len() <= MAX_CODES,
                forall|a: int, b: int| 0 <= a <= b < i ==> codes@[a] <= codes@[b],
            decreases codes@.len() - i,
        {
            if codes[i - 1] > codes[i] {
                assert(!sorted_codes(codes@));
                return Ok(false);
            }
            assert forall|a: int, b: int| 0 <= a <= b < i + 1 implies codes@[a] <= codes@[b] by {
                if b == i as int && a < b {
                    assert(codes@[a] <= codes@[i - 1]);
                }
            }
            i += 1;
        }
        Ok(true)
    }
}

} // verus!
