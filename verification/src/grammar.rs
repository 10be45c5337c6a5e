//! The bounded transfer grammar.
//!
//! ```text
//! active:  Entity VERB Entity (Number)? Object "."
//! passive: Entity RECEIVE-VERB (Number)? Object FROM Entity "."
//! ```
//!
//! At most 64 input bytes and 8 space-separated words; the sentence ends
//! with a single `.` (trailing spaces tolerated). Words are classified
//! (verbs, `from`, number words, known objects case-insensitively; digit
//! words; capitalised or non-ASCII entities; lowercase unknown objects),
//! then the verdict is decided in a fixed order: no verb (1), a doubled
//! verb (4), a missing participant (2), a bad digit word after the verb
//! (3), a shape outside the two forms (4), or success (0). Empty input is
//! status 5.

use vstd::prelude::*;

use crate::error::{overlong, ErrorView, IngestError};
use crate::language::{
    active_verb, eq_ci, eq_ignore_case, is_active_verb, is_passive_verb, number_word,
    number_word_value, object_code, object_code_of, passive_verb, LanguageRuntime, TransferParse,
    WORD_APPLE, WORD_APPLES, WORD_EIGHT, WORD_FIVE, WORD_FOUR, WORD_FROM, WORD_NINE, WORD_ONE,
    WORD_ORANGE, WORD_ORANGES, WORD_SEVEN, WORD_SIX, WORD_TEN, WORD_THREE, WORD_TWO, WORD_ZERO,
};

verus! {

/// The role a single word can play in the grammar.
#[derive(Debug, Clone, Copy, PartialEq, Eq, Structural)]
pub enum WordClass {
    ActiveVerb,
    PassiveVerb,
    From,
    Number(u64),
    BadNumber,
    Entity,
    Object(i64),
    Other,
}

pub open spec fn is_digit(b: u8) -> bool {
    48 <= b <= 57
}

pub open spec fn all_digits(w: Seq<u8>) -> bool {
    forall|i: int| 0 <= i < w.len() ==> is_digit(#[trigger] w[i])
}

pub open spec fn all_lower(w: Seq<u8>) -> bool {
    forall|i: int| 0 <= i < w.len() ==> 97 <= #[trigger] w[i] <= 122
}

/// Decimal value of a digit string.
pub open spec fn digits_value(w: Seq<u8>) -> nat
    decreases w.len(),
{
    if w.len() == 0 {
        0
    } else {
        digits_value(w.drop_last()) * 10 + (w.last() - 48) as nat
    }
}

/// Classification of one word (a non-empty run of non-space bytes).
pub open spec fn class_of(w: Seq<u8>) -> WordClass {
    if is_active_verb(w) {
        WordClass::ActiveVerb
    } else if is_passive_verb(w) {
        WordClass::PassiveVerb
    } else if eq_ignore_case(w, WORD_FROM@) {
        WordClass::From
    } else if number_word_value(w) is Some {
        WordClass::Number(number_word_value(w)->0)
    } else if object_code_of(w) != 0 {
        WordClass::Object(object_code_of(w))
    } else if w.len() > 0 && is_digit(w[0]) {
        if w.len() <= 3 && all_digits(w) {
            WordClass::Number(digits_value(w) as u64)
        } else {
            WordClass::BadNumber
        }
    } else if w.len() > 16 {
        WordClass::Other
    } else if w.len() > 0 && ((65 <= w[0] <= 90) || w[0] >= 128) {
        WordClass::Entity
    } else if w.len() > 0 && all_lower(w) {
        WordClass::Object(0)
    } else {
        WordClass::Other
    }
}

/// Length of `t.take(n)` once trailing spaces are removed.
pub open spec fn trimmed_len(t: Seq<u8>, n: int) -> int
    decreases n,
{
    if n > 0 && n <= t.len() && t[n - 1] == 32 {
        trimmed_len(t, n - 1)
    } else {
        n
    }
}

/// Word spans `(start, length)` of `b` from position `i`, where `start`
/// is the beginning of the word being read at `i`, if any.
pub open spec fn spans_scan(b: Seq<u8>, i: int, start: Option<int>) -> Seq<(int, int)>
    decreases b.len() - i,
{
    if i >= b.len() {
        match start {
            Some(s) => seq![(s, i - s)],
            None => seq![],
        }
    } else if b[i] == 32 {
        match start {
            Some(s) => seq![(s, i - s)] + spans_scan(b, i + 1, None),
            None => spans_scan(b, i + 1, None),
        }
    } else {
        match start {
            Some(s) => spans_scan(b, i + 1, Some(s)),
            None => spans_scan(b, i + 1, Some(i)),
        }
    }
}

/// The maximal runs of non-space bytes of `b`.
pub open spec fn word_spans(b: Seq<u8>) -> Seq<(int, int)> {
    spans_scan(b, 0, None)
}

pub open spec fn is_verb(c: WordClass) -> bool {
    c is ActiveVerb || c is PassiveVerb
}

pub open spec fn count_verbs(s: Seq<WordClass>) -> nat
    decreases s.len(),
{
    if s.len() == 0 {
        0
    } else {
        count_verbs(s.drop_last()) + if is_verb(s.last()) {
            1nat
        } else {
            0nat
        }
    }
}

pub open spec fn count_entities(s: Seq<WordClass>) -> nat
    decreases s.len(),
{
    if s.len() == 0 {
        0
    } else {
        count_entities(s.drop_last()) + if s.last() is Entity {
            1nat
        } else {
            0nat
        }
    }
}

pub open spec fn count_objects(s: Seq<WordClass>) -> nat
    decreases s.len(),
{
    if s.len() == 0 {
        0
    } else {
        count_objects(s.drop_last()) + if s.last() is Object {
            1nat
        } else {
            0nat
        }
    }
}

pub open spec fn count_froms(s: Seq<WordClass>) -> nat
    decreases s.len(),
{
    if s.len() == 0 {
        0
    } else {
        count_froms(s.drop_last()) + if s.last() is From {
            1nat
        } else {
            0nat
        }
    }
}

pub open spec fn count_bad_numbers(s: Seq<WordClass>) -> nat
    decreases s.len(),
{
    if s.len() == 0 {
        0
    } else {
        count_bad_numbers(s.drop_last()) + if s.last() is BadNumber {
            1nat
        } else {
            0nat
        }
    }
}

/// Index of the first verb at or after `i`.
pub open spec fn first_verb_from(s: Seq<WordClass>, i: int) -> int
    decreases s.len() - i,
{
    if i >= s.len() {
        i
    } else if is_verb(s[i]) {
        i
    } else {
        first_verb_from(s, i + 1)
    }
}

/// A failed parse: only the status is meaningful.
pub open spec fn failed_parse(status: i64) -> TransferParse {
    TransferParse {
        status,
        verb: 0,
        verb_span: None,
        source: None,
        target: None,
        object_code: 0,
        object: None,
        quantity: 0,
        quantity_present: false,
        quantity_span: None,
    }
}

pub open spec fn span_of(p: (int, int)) -> Option<(u64, u64)> {
    Some((p.0 as u64, p.1 as u64))
}

pub open spec fn number_value(c: WordClass) -> i64 {
    match c {
        WordClass::Number(v) => v as i64,
        _ => 0,
    }
}

pub open spec fn object_of(c: WordClass) -> i64 {
    match c {
        WordClass::Object(code) => code,
        _ => 0,
    }
}

/// The verdict once words and their classes are known.
pub open spec fn verdict_spec(ws: Seq<(int, int)>, cs: Seq<WordClass>) -> TransferParse {
    let nv = count_verbs(cs);
    if nv == 0 {
        failed_parse(1)
    } else if nv > 1 {
        failed_parse(4)
    } else {
        let v = first_verb_from(cs, 0);
        let before = cs.take(v);
        let after = cs.skip(v + 1);
        if cs[v] is ActiveVerb {
            if count_entities(before) == 0 || count_entities(after) == 0 || count_objects(after)
                == 0 {
                failed_parse(2)
            } else if count_bad_numbers(after) > 0 {
                failed_parse(3)
            } else if v == 1 && cs[0] is Entity && cs.len() == 4 && cs[2] is Entity
                && cs[3] is Object {
                TransferParse {
                    status: 0,
                    verb: 1,
                    verb_span: span_of(ws[1]),
                    source: span_of(ws[0]),
                    target: span_of(ws[2]),
                    object_code: object_of(cs[3]),
                    object: span_of(ws[3]),
                    quantity: 0,
                    quantity_present: false,
                    quantity_span: None,
                }
            } else if v == 1 && cs[0] is Entity && cs.len() == 5 && cs[2] is Entity
                && cs[3] is Number && cs[4] is Object {
                TransferParse {
                    status: 0,
                    verb: 1,
                    verb_span: span_of(ws[1]),
                    source: span_of(ws[0]),
                    target: span_of(ws[2]),
                    object_code: object_of(cs[4]),
                    object: span_of(ws[4]),
                    quantity: number_value(cs[3]),
                    quantity_present: true,
                    quantity_span: span_of(ws[3]),
                }
            } else {
                failed_parse(4)
            }
        } else {
            if count_entities(before) == 0 || count_entities(after) == 0 || count_objects(after)
                == 0 || count_froms(after) == 0 {
                failed_parse(2)
            } else if count_bad_numbers(after) > 0 {
                failed_parse(3)
            } else if v == 1 && cs[0] is Entity && cs.len() == 5 && cs[2] is Object
                && cs[3] is From && cs[4] is Entity {
                TransferParse {
                    status: 0,
                    verb: 2,
                    verb_span: span_of(ws[1]),
                    source: span_of(ws[4]),
                    target: span_of(ws[0]),
                    object_code: object_of(cs[2]),
                    object: span_of(ws[2]),
                    quantity: 0,
                    quantity_present: false,
                    quantity_span: None,
                }
            } else if v == 1 && cs[0] is Entity && cs.len() == 6 && cs[2] is Number
                && cs[3] is Object && cs[4] is From && cs[5] is Entity {
                TransferParse {
                    status: 0,
                    verb: 2,
                    verb_span: span_of(ws[1]),
                    source: span_of(ws[5]),
                    target: span_of(ws[0]),
                    object_code: object_of(cs[3]),
                    object: span_of(ws[3]),
                    quantity: number_value(cs[2]),
                    quantity_present: true,
                    quantity_span: span_of(ws[2]),
                }
            } else {
                failed_parse(4)
            }
        }
    }
}

/// The word of `t` under a span.
pub open spec fn word_at(t: Seq<u8>, p: (int, int)) -> Seq<u8> {
    t.subrange(p.0, p.0 + p.1)
}

/// The complete grammar verdict for a sentence.
pub open spec fn parse_spec(t: Seq<u8>) -> TransferParse {
    let e = trimmed_len(t, t.len() as int);
    if e == 0 {
        failed_parse(5)
    } else if t[e - 1] != 46 {
        failed_parse(4)
    } else {
        let ws = word_spans(t.take(e - 1));
        if ws.len() == 0 {
            failed_parse(5)
        } else if ws.len() > 8 {
            failed_parse(4)
        } else {
            verdict_spec(ws, ws.map_values(|p: (int, int)| class_of(word_at(t, p))))
        }
    }
}

fn is_upper_or_high(b: u8) -> (r: bool)
    ensures
        r == ((65 <= b <= 90) || b >= 128),
{
    (65 <= b && b <= 90) || b >= 128
}

#[verifier::loop_isolation(false)]
pub fn classify_word(w: &[u8]) -> (r: WordClass)
    ensures
        r == class_of(w@),
{
    if active_verb(w) {
        return WordClass::ActiveVerb;
    }
    if passive_verb(w) {
        return WordClass::PassiveVerb;
    }
    if eq_ci(w, &WORD_FROM) {
        return WordClass::From;
    }
    match number_word(w) {
        Some(v) => {
            return WordClass::Number(v);
        },
        None => {},
    }
    let code = object_code(w);
    if code != 0 {
        return WordClass::Object(code);
    }
    if w.len() > 0 && 48 <= w[0] && w[0] <= 57 {
        if w.len() > 3 {
            return WordClass::BadNumber;
        }
        let mut value: u64 = 0;
        let mut i: usize = 0;
        while i < w.len()
            invariant
                i <= w@.len() <= 3,
                all_digits(w@.take(i as int)),
                value == digits_value(w@.take(i as int)),
                i == 0 ==> value == 0,
                i == 1 ==> value < 10,
                i == 2 ==> value < 100,
                value < 1000,
            decreases w@.len() - i,
        {
            let b = w[i];
            if !(48 <= b && b <= 57) {
                assert(!all_digits(w@));
                return WordClass::BadNumber;
            }
            proof {
                assert(w@.take(i + 1).drop_last() =~= w@.take(i as int));
            }
            value = value * 10 + (b - 48) as u64;
            i += 1;
        }
        assert(w@.take(w@.len() as int) =~= w@);
        return WordClass::Number(value);
    }
    if w.len() > 16 {
        return WordClass::Other;
    }
    if w.len() > 0 && is_upper_or_high(w[0]) {
        return WordClass::Entity;
    }
    if w.len() == 0 {
        return WordClass::Other;
    }
    let mut j: usize = 0;
    while j < w.len()
        invariant
            j <= w@.len(),
            forall|k: int| 0 <= k < j ==> 97 <= #[trigger] w@[k] <= 122,
        decreases w@.len() - j,
    {
        if !(97 <= w[j] && w[j] <= 122) {
            return WordClass::Other;
        }
        j += 1;
    }
    WordClass::Object(0)
}

fn failed(status: i64) -> (r: TransferParse)
    ensures
        r == failed_parse(status),
{
    TransferParse {
        status,
        verb: 0,
        verb_span: None,
        source: None,
        target: None,
        object_code: 0,
        object: None,
        quantity: 0,
        quantity_present: false,
        quantity_span: None,
    }
}

/// Which class test a count applies.
pub open spec fn count_of(s: Seq<WordClass>, which: u8) -> nat {
    if which == 0 {
        count_verbs(s)
    } else if which == 1 {
        count_entities(s)
    } else if which == 2 {
        count_objects(s)
    } else if which == 3 {
        count_froms(s)
    } else {
        count_bad_numbers(s)
    }
}

fn class_matches(c: WordClass, which: u8) -> (r: bool)
    ensures
        r == (if which == 0 {
            is_verb(c)
        } else if which == 1 {
            c is Entity
        } else if which == 2 {
            c is Object
        } else if which == 3 {
            c is From
        } else {
            c is BadNumber
        }),
{
    match c {
        WordClass::ActiveVerb | WordClass::PassiveVerb => which == 0,
        WordClass::Entity => which == 1,
        WordClass::Object(_) => which == 2,
        WordClass::From => which == 3,
        WordClass::BadNumber => which > 3,
        _ => false,
    }
}

fn count_range(cs: &Vec<WordClass>, lo: usize, hi: usize, which: u8) -> (r: usize)
    requires
        lo <= hi <= cs@.len(),
    ensures
        r == count_of(cs@.subrange(lo as int, hi as int), which),
        r <= hi - lo,
{
    let mut n: usize = 0;
    let mut i: usize = lo;
    while i < hi
        invariant
            lo <= i <= hi <= cs@.len(),
            n == count_of(cs@.subrange(lo as int, i as int), which),
            n <= i - lo,
        decreases hi - i,
    {
        let hit = class_matches(cs[i], which);
        proof {
            let s = cs@.subrange(lo as int, i + 1);
            assert(s.drop_last() =~= cs@.subrange(lo as int, i as int));
            assert(s.last() == cs@[i as int]);
        }
        if hit {
            n += 1;
        }
        i += 1;
    }
    n
}

fn word_span(p: (usize, usize)) -> (r: Option<(u64, u64)>)
    ensures
        r == span_of((p.0 as int, p.1 as int)),
{
    Some((p.0 as u64, p.1 as u64))
}

fn class_number(c: WordClass) -> (r: i64)
    ensures
        r == number_value(c),
{
    match c {
        WordClass::Number(v) => {
            if v <= 0x7fff_ffff_ffff_ffff {
                v as i64
            } else {
                v as i64
            }
        },
        _ => 0,
    }
}

fn class_object(c: WordClass) -> (r: i64)
    ensures
        r == object_of(c),
{
    match c {
        WordClass::Object(code) => code,
        _ => 0,
    }
}

impl LanguageRuntime {
    /// Bounded text path: raw sentence bytes in, canonical role spans out.
    /// Sentences longer than 64 bytes are refused.
    pub fn parse_transfer(&self, text: &[u8]) -> (r: Result<TransferParse, IngestError>)
        ensures
            text@.len() <= 64 ==> r == Ok::<TransferParse, IngestError>(parse_spec(text@)),
            text@.len() > 64 ==> (r matches Err(e) && e@ == (ErrorView::Overlong {
                adapter: "text"@,
                detail: "input exceeds 64 bytes"@,
            })),
    {
        if text.len() > 64 {
            return Err(overlong("text", "input exceeds 64 bytes"));
        }
        let t = text;
        let mut e: usize = t.len();
        while e > 0 && t[e - 1] == 32
            invariant
                e <= t@.len(),
                trimmed_len(t@, t@.len() as int) == trimmed_len(t@, e as int),
            decreases e,
        {
            e -= 1;
        }
        if e == 0 {
            return Ok(failed(5));
        }
        if t[e - 1] != 46 {
            return Ok(failed(4));
        }
        let body_len: usize = e - 1;
        let ghost body = t@.take(body_len as int);
        let mut spans: Vec<(usize, usize)> = Vec::new();
        let mut start: Option<usize> = None;
        let mut i: usize = 0;
        while i < body_len
            invariant
                i <= body_len < t@.len() <= 64,
                body == t@.take(body_len as int),
                spans@.map_values(|p: (usize, usize)| (p.0 as int, p.1 as int)) + spans_scan(
                    body,
                    i as int,
                    match start {
                        Some(s) => Some(s as int),
                        None => None,
                    },
                ) == word_spans(body),
                match start {
                    Some(s) => s < i,
                    None => true,
                },
                forall|k: int|
                    0 <= k < spans@.len() ==> #[trigger] spans@[k].0 + spans@[k].1 <= i,
            decreases body_len - i,
        {
            let ghost old_spans = spans@;
            if t[i] == 32 {
                match start {
                    Some(s) => {
                        spans.push((s, i - s));
                        proof {
                            assert(spans@.map_values(|p: (usize, usize)| (p.0 as int, p.1 as int))
                                =~= old_spans.map_values(
                                |p: (usize, usize)| (p.0 as int, p.1 as int),
                            ) + seq![(s as int, i - s)]);
                        }
                    },
                    None => {},
                }
                start = None;
            } else {
                match start {
                    Some(_) => {},
                    None => {
                        start = Some(i);
                    },
                }
            }
            i += 1;
        }
        match start {
            Some(s) => {
                let ghost old_spans = spans@;
                spans.push((s, body_len - s));
                proof {
                    assert(spans@.map_values(|p: (usize, usize)| (p.0 as int, p.1 as int))
                        =~= old_spans.map_values(|p: (usize, usize)| (p.0 as int, p.1 as int))
                        + seq![(s as int, body_len - s)]);
                }
            },
            None => {
                assert(spans@.map_values(|p: (usize, usize)| (p.0 as int, p.1 as int))
                    =~= spans@.map_values(|p: (usize, usize)| (p.0 as int, p.1 as int)) + seq![]);
            },
        }
        let ghost ws = word_spans(body);
        assert(spans@.map_values(|p: (usize, usize)| (p.0 as int, p.1 as int)) == ws);
        if spans.len() == 0 {
            return Ok(failed(5));
        }
        if spans.len() > 8 {
            return Ok(failed(4));
        }
        let mut classes: Vec<WordClass> = Vec::new();
        let mut w: usize = 0;
        while w < spans.len()
            invariant
                w <= spans@.len() <= 8,
                body_len < t@.len(),
                ws == spans@.map_values(|p: (usize, usize)| (p.0 as int, p.1 as int)),
                forall|k: int|
                    0 <= k < spans@.len() ==> #[trigger] spans@[k].0 + spans@[k].1 <= body_len,
                classes@.len() == w,
                forall|k: int|
                    0 <= k < w ==> #[trigger] classes@[k] == class_of(word_at(t@, ws[k])),
            decreases spans@.len() - w,
        {
            let (s, l) = spans[w];
            assert(ws[w as int] == (s as int, l as int));
            let word = &t[s..s + l];
            let c = classify_word(word);
            classes.push(c);
            w += 1;
        }
        let ghost cs = ws.map_values(|p: (int, int)| class_of(word_at(t@, p)));
        assert(classes@ =~= cs);
        let n = classes.len();
        let nv = count_range(&classes, 0, n, 0);
        assert(classes@.subrange(0, n as int) =~= classes@);
        if nv == 0 {
            return Ok(failed(1));
        }
        if nv > 1 {
            return Ok(failed(4));
        }
        let mut v: usize = 0;
        while v < n && !class_matches(classes[v], 0)
            invariant
                v <= n == classes@.len(),
                first_verb_from(cs, 0) == first_verb_from(cs, v as int),
                classes@ == cs,
                forall|k: int| 0 <= k < v ==> !is_verb(#[trigger] cs[k]),
            decreases n - v,
        {
            v += 1;
        }
        if v >= n {
            proof {
                lemma_no_verbs(cs);
            }
            return Ok(failed(1));
        }
        let before_entities = count_range(&classes, 0, v, 1);
        let after_entities = count_range(&classes, v + 1, n, 1);
        let after_objects = count_range(&classes, v + 1, n, 2);
        let after_froms = count_range(&classes, v + 1, n, 3);
        let after_bad = count_range(&classes, v + 1, n, 4);
        assert(classes@.subrange(0, v as int) =~= cs.take(v as int));
        assert(classes@.subrange(v + 1, n as int) =~= cs.skip(v + 1));
        let active = match classes[v] {
            WordClass::ActiveVerb => true,
            _ => false,
        };
        if active {
            if before_entities == 0 || after_entities == 0 || after_objects == 0 {
                return Ok(failed(2));
            }
            if after_bad > 0 {
                return Ok(failed(3));
            }
            let lead = match classes[0] {
                WordClass::Entity => true,
                _ => false,
            };
            if v == 1 && lead && n == 4 {
                match (classes[2], classes[3]) {
                    (WordClass::Entity, WordClass::Object(code)) => {
                        return Ok(
                            TransferParse {
                                status: 0,
                                verb: 1,
                                verb_span: word_span(spans[1]),
                                source: word_span(spans[0]),
                                target: word_span(spans[2]),
                                object_code: code,
                                object: word_span(spans[3]),
                                quantity: 0,
                                quantity_present: false,
                                quantity_span: None,
                            },
                        );
                    },
                    _ => {},
                }
            }
            if v == 1 && lead && n == 5 {
                match (classes[2], classes[3], classes[4]) {
                    (WordClass::Entity, WordClass::Number(_), WordClass::Object(code)) => {
                        return Ok(
                            TransferParse {
                                status: 0,
                                verb: 1,
                                verb_span: word_span(spans[1]),
                                source: word_span(spans[0]),
                                target: word_span(spans[2]),
                                object_code: code,
                                object: word_span(spans[4]),
                                quantity: class_number(classes[3]),
                                quantity_present: true,
                                quantity_span: word_span(spans[3]),
                            },
                        );
                    },
                    _ => {},
                }
            }
            Ok(failed(4))
        } else {
            if before_entities == 0 || after_entities == 0 || after_objects == 0 || after_froms
                == 0 {
                return Ok(failed(2));
            }
            if after_bad > 0 {
                return Ok(failed(3));
            }
            let lead = match classes[0] {
                WordClass::Entity => true,
                _ => false,
            };
            if v == 1 && lead && n == 5 {
                match (classes[2], classes[3], classes[4]) {
                    (WordClass::Object(code), WordClass::From, WordClass::Entity) => {
                        return Ok(
                            TransferParse {
                                status: 0,
                                verb: 2,
                                verb_span: word_span(spans[1]),
                                source: word_span(spans[4]),
                                target: word_span(spans[0]),
                                object_code: code,
                                object: word_span(spans[2]),
                                quantity: 0,
                                quantity_present: false,
                                quantity_span: None,
                            },
                        );
                    },
                    _ => {},
                }
            }
            if v == 1 && lead && n == 6 {
                match (classes[2], classes[3], classes[4], classes[5]) {
                    (
                        WordClass::Number(_),
                        WordClass::Object(code),
                        WordClass::From,
                        WordClass::Entity,
                    ) => {
                        return Ok(
                            TransferParse {
                                status: 0,
                                verb: 2,
                                verb_span: word_span(spans[1]),
                                source: word_span(spans[5]),
                                target: word_span(spans[0]),
                                object_code: code,
                                object: word_span(spans[3]),
                                quantity: class_number(classes[2]),
                                quantity_present: true,
                                quantity_span: word_span(spans[2]),
                            },
                        );
                    },
                    _ => {},
                }
            }
            Ok(failed(4))
        }
    }
}


/// Every word span lies inside the scanned bytes.
pub proof fn lemma_spans_scan_bounds(b: Seq<u8>, i: int, start: Option<int>)
    requires
        0 <= i <= b.len(),
        start matches Some(s) ==> 0 <= s < i,
    ensures
        forall|k: int|
            0 <= k < spans_scan(b, i, start).len() ==> {
                let p = #[trigger] spans_scan(b, i, start)[k];
                &&& 0 <= p.0
                &&& 0 <= p.1
                &&& p.0 + p.1 <= b.len()
            },
    decreases b.len() - i,
{
    let all = spans_scan(b, i, start);
    if i >= b.len() {
        if let Some(s) = start {
            assert(all == seq![(s, i - s)]);
            assert forall|k: int| 0 <= k < all.len() implies {
                let p = #[trigger] all[k];
                &&& 0 <= p.0
                &&& 0 <= p.1
                &&& p.0 + p.1 <= b.len()
            } by {
                assert(all[k] == (s, i - s));
            }
        }
    } else if b[i] == 32 {
        lemma_spans_scan_bounds(b, i + 1, None);
        let rest = spans_scan(b, i + 1, None);
        if let Some(s) = start {
            assert(all == seq![(s, i - s)] + rest);
            assert forall|k: int| 0 <= k < all.len() implies {
                let p = #[trigger] all[k];
                &&& 0 <= p.0
                &&& 0 <= p.1
                &&& p.0 + p.1 <= b.len()
            } by {
                if k > 0 {
                    assert(all[k] == rest[k - 1]);
                }
            }
        } else {
            assert(all == rest);
        }
    } else {
        match start {
            Some(s) => {
                lemma_spans_scan_bounds(b, i + 1, Some(s));
                assert(all == spans_scan(b, i + 1, Some(s)));
            },
            None => {
                lemma_spans_scan_bounds(b, i + 1, Some(i));
                assert(all == spans_scan(b, i + 1, Some(i)));
            },
        }
    }
}

/// A word span starts at the beginning of `b` or after a space, and ends
/// at the end of `b` or before a space.
pub open spec fn word_edges(b: Seq<u8>, p: (int, int)) -> bool {
    &&& (p.0 == 0 || (0 < p.0 <= b.len() && b[p.0 - 1] == 32))
    &&& (p.0 + p.1 == b.len() || (0 <= p.0 + p.1 < b.len() && b[p.0 + p.1] == 32))
}

proof fn lemma_spans_scan_edges(b: Seq<u8>, i: int, start: Option<int>)
    requires
        0 <= i <= b.len(),
        start is None ==> (i == 0 || b[i - 1] == 32),
        start matches Some(s) ==> 0 <= s < i && (s == 0 || b[s - 1] == 32),
    ensures
        forall|k: int|
            0 <= k < spans_scan(b, i, start).len() ==> word_edges(
                b,
                #[trigger] spans_scan(b, i, start)[k],
            ),
    decreases b.len() - i,
{
    let all = spans_scan(b, i, start);
    if i >= b.len() {
        if let Some(s) = start {
            assert(all == seq![(s, i - s)]);
            assert forall|k: int| 0 <= k < all.len() implies word_edges(b, #[trigger] all[k]) by {
                assert(all[k] == (s, i - s));
            }
        }
    } else if b[i] == 32 {
        lemma_spans_scan_edges(b, i + 1, None);
        let rest = spans_scan(b, i + 1, None);
        if let Some(s) = start {
            assert(all == seq![(s, i - s)] + rest);
            assert forall|k: int| 0 <= k < all.len() implies word_edges(b, #[trigger] all[k]) by {
                if k > 0 {
                    assert(all[k] == rest[k - 1]);
                } else {
                    assert(all[k] == (s, i - s));
                }
            }
        } else {
            assert(all == rest);
        }
    } else {
        match start {
            Some(s) => {
                lemma_spans_scan_edges(b, i + 1, Some(s));
                assert(all == spans_scan(b, i + 1, Some(s)));
            },
            None => {
                lemma_spans_scan_edges(b, i + 1, Some(i));
                assert(all == spans_scan(b, i + 1, Some(i)));
            },
        }
    }
}

/// A role span of a sentence starts at its beginning or after a space, and
/// is followed by a space or by the final `.`.
pub open spec fn role_word_edges(t: Seq<u8>, span: Option<(u64, u64)>) -> bool {
    match span {
        Some((s, l)) => {
            &&& (s == 0 || t[s - 1] == 32)
            &&& s + l < t.len()
            &&& (t[s + l] == 32 || t[s + l] == 46)
        },
        None => false,
    }
}

/// The source, target and object words of a successful parse are whole
/// words of the sentence.
pub proof fn lemma_parse_word_edges(t: Seq<u8>)
    requires
        t.len() <= 64,
        parse_spec(t).status == 0,
    ensures
        role_word_edges(t, parse_spec(t).source),
        role_word_edges(t, parse_spec(t).target),
        role_word_edges(t, parse_spec(t).object),
{
    let e = trimmed_len(t, t.len() as int);
    lemma_trimmed_len_bounds(t, t.len() as int);
    let body = t.take(e - 1);
    let ws = word_spans(body);
    lemma_spans_scan_bounds(body, 0, None);
    lemma_spans_scan_edges(body, 0, None);
    assert forall|k: int| 0 <= k < ws.len() implies role_word_edges(t, span_of(#[trigger] ws[k])) by {
        let p = ws[k];
        assert(word_edges(body, p));
        if p.0 > 0 {
            assert(t[p.0 - 1] == body[p.0 - 1]);
        }
        if p.0 + p.1 < body.len() {
            assert(t[p.0 + p.1] == body[p.0 + p.1]);
        }
    }
}

/// The words of a sentence before its final `.`.
pub open spec fn sentence_words(t: Seq<u8>) -> Seq<(int, int)> {
    word_spans(t.take(trimmed_len(t, t.len() as int) - 1))
}

/// Who gives and who receives. In an accepted active sentence
/// (`Entity VERB Entity (Number)? Object`) the giver is the first word and
/// the receiver the word right after the verb, the second word. In an
/// accepted passive sentence (`Entity RECEIVE-VERB (Number)? Object FROM
/// Entity`) the receiver is the first word and the giver the last word,
/// the one right after `from`. Both forms therefore name the same giver
/// and receiver for the same transfer.
pub proof fn lemma_parse_roles(t: Seq<u8>)
    ensures
        ({
            let p = parse_spec(t);
            let ws = sentence_words(t);
            let n = ws.len() as int;
            &&& p.status == 0 ==> (p.verb == 1 || p.verb == 2) && 4 <= n <= 6
            &&& (p.status == 0 && p.verb == 1) ==> {
                &&& class_of(word_at(t, ws[1])) is ActiveVerb
                &&& class_of(word_at(t, ws[0])) is Entity
                &&& class_of(word_at(t, ws[2])) is Entity
                &&& p.source == span_of(ws[0])
                &&& p.target == span_of(ws[2])
                &&& p.object == span_of(ws[n - 1])
            }
            &&& (p.status == 0 && p.verb == 2) ==> {
                &&& class_of(word_at(t, ws[1])) is PassiveVerb
                &&& class_of(word_at(t, ws[n - 2])) is From
                &&& class_of(word_at(t, ws[0])) is Entity
                &&& class_of(word_at(t, ws[n - 1])) is Entity
                &&& p.target == span_of(ws[0])
                &&& p.source == span_of(ws[n - 1])
                &&& p.object == span_of(ws[n - 3])
            }
        }),
{
    let e = trimmed_len(t, t.len() as int);
    lemma_trimmed_len_bounds(t, t.len() as int);
    if e != 0 && t[e - 1] == 46 {
        let ws = word_spans(t.take(e - 1));
        assert(ws == sentence_words(t));
        if 1 <= ws.len() <= 8 {
            let cs = ws.map_values(|p: (int, int)| class_of(word_at(t, p)));
            assert(parse_spec(t) == verdict_spec(ws, cs));
            assert(forall|k: int| 0 <= k < ws.len() ==> #[trigger] cs[k] == class_of(word_at(t, ws[k])));
            let p = verdict_spec(ws, cs);
            let n = ws.len() as int;
            if p.status == 0 {
                assert(cs.len() == ws.len());
                assert(p.verb == 1 || p.verb == 2);
                assert(4 <= n <= 6);
                if p.verb == 1 {
                    assert(cs[1] is ActiveVerb);
                    assert(p.object == span_of(ws[n - 1]));
                } else {
                    if !(exists|k: int| 0 <= k < cs.len() && is_verb(#[trigger] cs[k])) {
                        lemma_no_verbs(cs);
                    }
                    lemma_first_verb_found(cs, 0);
                    assert(cs[1] is PassiveVerb);
                    assert(cs[n - 2] is From);
                    assert(p.source == span_of(ws[n - 1]));
                    assert(p.object == span_of(ws[n - 3]));
                }
            }
        }
    }
}

/// Words that play a role in a successful parse are at most 16 bytes.
pub proof fn lemma_role_word_len(w: Seq<u8>)
    ensures
        (class_of(w) is Entity || class_of(w) is Object || class_of(w) is Number) ==> w.len()
            <= 16,
{
    assert(WORD_APPLE@.len() == 5);
    assert(WORD_APPLES@.len() == 6);
    assert(WORD_ORANGE@.len() == 6);
    assert(WORD_ORANGES@.len() == 7);
    assert(WORD_ZERO@.len() == 4);
    assert(WORD_ONE@.len() == 3);
    assert(WORD_TWO@.len() == 3);
    assert(WORD_THREE@.len() == 5);
    assert(WORD_FOUR@.len() == 4);
    assert(WORD_FIVE@.len() == 4);
    assert(WORD_SIX@.len() == 3);
    assert(WORD_SEVEN@.len() == 5);
    assert(WORD_EIGHT@.len() == 5);
    assert(WORD_NINE@.len() == 4);
    assert(WORD_TEN@.len() == 3);
}

/// The spans a successful parse reports are in bounds, and its role words
/// are at most 16 bytes long.
pub open spec fn span_fits(t: Seq<u8>, span: Option<(u64, u64)>, max: int) -> bool {
    match span {
        Some((s, l)) => s + l <= t.len() && l <= max,
        None => false,
    }
}

pub proof fn lemma_parse_spans(t: Seq<u8>)
    requires
        t.len() <= 64,
        parse_spec(t).status == 0,
    ensures
        span_fits(t, parse_spec(t).verb_span, 64),
        span_fits(t, parse_spec(t).source, 16),
        span_fits(t, parse_spec(t).target, 16),
        span_fits(t, parse_spec(t).object, 16),
        parse_spec(t).quantity_present ==> span_fits(t, parse_spec(t).quantity_span, 16),
{
    let e = trimmed_len(t, t.len() as int);
    lemma_trimmed_len_bounds(t, t.len() as int);
    let body = t.take(e - 1);
    let ws = word_spans(body);
    lemma_spans_scan_bounds(body, 0, None);
    let cs = ws.map_values(|p: (int, int)| class_of(word_at(t, p)));
    assert forall|k: int|
        0 <= k < ws.len() && (cs[k] is Entity || cs[k] is Object || cs[k] is Number) implies #[trigger] ws[k].1
        <= 16 by {
        lemma_role_word_len(word_at(t, ws[k]));
    }
}

pub proof fn lemma_trimmed_len_bounds(t: Seq<u8>, n: int)
    requires
        0 <= n <= t.len(),
    ensures
        0 <= trimmed_len(t, n) <= n,
    decreases n,
{
    if n > 0 && t[n - 1] == 32 {
        lemma_trimmed_len_bounds(t, n - 1);
    }
}

proof fn lemma_first_verb_found(s: Seq<WordClass>, i: int)
    requires
        0 <= i <= s.len(),
        exists|k: int| i <= k < s.len() && is_verb(#[trigger] s[k]),
    ensures
        i <= first_verb_from(s, i) < s.len(),
        is_verb(s[first_verb_from(s, i)]),
    decreases s.len() - i,
{
    if i < s.len() && !is_verb(s[i]) {
        let k = choose|k: int| i <= k < s.len() && is_verb(#[trigger] s[k]);
        assert(k != i);
        lemma_first_verb_found(s, i + 1);
    }
}

proof fn lemma_no_verbs(s: Seq<WordClass>)
    requires
        forall|k: int| 0 <= k < s.len() ==> !is_verb(#[trigger] s[k]),
    ensures
        count_verbs(s) == 0,
    decreases s.len(),
{
    if s.len() > 0 {
        assert(!is_verb(s[s.len() - 1]));
        lemma_no_verbs(s.drop_last());
    }
}

/// A word classed as an object carries a closed-vocabulary code or 0.
proof fn lemma_class_object_code(w: Seq<u8>)
    ensures
        class_of(w) is Object ==> 0 <= object_of(class_of(w)) <= 2,
{
}

/// A successful parse names an object code of the closed vocabulary, or 0
/// for an unknown object.
pub proof fn lemma_parse_object_code(t: Seq<u8>)
    ensures
        parse_spec(t).status == 0 ==> 0 <= parse_spec(t).object_code <= 2,
{
    let e = trimmed_len(t, t.len() as int);
    if e > 0 && t[e - 1] == 46 {
        let ws = word_spans(t.take(e - 1));
        let cs = ws.map_values(|p: (int, int)| class_of(word_at(t, p)));
        assert forall|i: int| 0 <= i < cs.len() && (#[trigger] cs[i]) is Object implies 0
            <= object_of(cs[i]) <= 2 by {
            lemma_class_object_code(word_at(t, ws[i]));
        }
    }
}

} // verus!
