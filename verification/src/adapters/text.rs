//! Bounded text adapter.
//!
//! Supported grammar (the complete contract):
//!
//! ```text
//! active:  Entity VERB Entity (Number)? Object "."
//! passive: Entity RECEIVE-VERB (Number)? Object FROM Entity "."
//! ```
//!
//! The adapter only transports bytes: UTF-8 validity (guaranteed by
//! `&str`), the 64-byte bound, and span slicing. Word classification, role
//! assignment, quantity parsing, and every verdict come from
//! [`LanguageRuntime::parse_transfer`].

use vstd::prelude::*;
use vstd::string::*;
use vstd::utf8::*;

use crate::adapters::{outcome, Adapter};
use crate::canonical::{
    assemble, assembled, converging, laid_out, layout_of, CanonicalFacts, FactsView, Ingested,
};
use crate::error::{language, overlong, ErrorView, IngestError};
use crate::grammar::{
    lemma_parse_object_code, lemma_parse_spans, lemma_parse_word_edges, parse_spec, role_word_edges,
    span_fits,
};
use crate::ir::{AdapterKind, FragmentView, Span, SpanView, EVENT_TRANSFER, MAX_SPELLING_BYTES, MAX_TEXT_BYTES};
use crate::language::{status, LanguageRuntime, TransferParse};
use crate::text::{decimal, decimal_i64, decimal_int, lemma_ascii_delimited_valid, push_decimal};

verus! {

pub struct TextAdapter;

/// Bytes of `t` under a `(start, length)` span.
pub open spec fn span_bytes(t: Seq<u8>, span: Option<(u64, u64)>) -> Seq<u8> {
    match span {
        Some((s, l)) => t.subrange(s as int, s + l),
        None => seq![],
    }
}

/// A provenance span for a word; `end` is `start + length`.
pub open spec fn word_span_view(field: Seq<char>, span: Option<(u64, u64)>) -> SpanView {
    match span {
        Some((s, l)) => SpanView { field, start: Some(s), end: Some((s + l) as u64) },
        None => SpanView { field, start: None, end: None },
    }
}

pub open spec fn text_facts(t: Seq<u8>, p: TransferParse) -> FactsView {
    FactsView {
        event: 1,
        source: span_bytes(t, p.source),
        target: span_bytes(t, p.target),
        object_code: p.object_code,
        object_spelling: span_bytes(t, p.object),
        quantity: if p.quantity_present {
            Some(p.quantity)
        } else {
            None
        },
    }
}

pub open spec fn text_spans(p: TransferParse) -> Seq<SpanView> {
    let base = seq![
        word_span_view("word:verb"@, p.verb_span),
        word_span_view("word:source"@, p.source),
        word_span_view("word:target"@, p.target),
        word_span_view("word:object"@, p.object),
    ];
    if p.quantity_present {
        base.push(word_span_view("word:quantity"@, p.quantity_span))
    } else {
        base
    }
}

/// What ingesting one sentence (its UTF-8 bytes) yields.
pub open spec fn text_ingest_spec(t: Seq<u8>) -> Result<(FragmentView, FactsView), ErrorView> {
    if t.len() > 64 {
        Err(
            ErrorView::Overlong {
                adapter: "text"@,
                detail: "input is "@ + decimal(t.len()) + " bytes, bound is 64"@,
            },
        )
    } else {
        let p = parse_spec(t);
        if p.status == 0 {
            let facts = text_facts(t, p);
            Ok(
                (
                    assembled(
                        AdapterKind::Text,
                        "mncs.ingest/ingest_parse"@,
                        t,
                        facts,
                        text_spans(p),
                        p.object_code == 0,
                    ),
                    facts,
                ),
            )
        } else if p.status == 1 {
            Err(
                ErrorView::Unsupported {
                    adapter: "text"@,
                    detail: "no supported transfer verb (gave/give/gives/received/receive/receives)"@,
                },
            )
        } else if p.status == 2 {
            Err(
                ErrorView::MissingField {
                    adapter: "text"@,
                    field: "transfer participant (source, target, or object)"@,
                },
            )
        } else if p.status == 3 {
            Err(
                ErrorView::Malformed {
                    adapter: "text"@,
                    detail: "quantity is not zero..ten or 0..999"@,
                },
            )
        } else if p.status == 5 {
            Err(ErrorView::Malformed { adapter: "text"@, detail: "empty input"@ })
        } else if p.status == 4 {
            Err(
                ErrorView::Malformed {
                    adapter: "text"@,
                    detail: "input is outside the bounded transfer grammar"@,
                },
            )
        } else {
            Err(ErrorView::Language("unknown parse status "@ + decimal_int(p.status as int)))
        }
    }
}

/// The bytes under a span reported by the grammar, checked against the
/// spelling bound and the input.
fn slice<'a>(bytes: &'a [u8], span: Option<(u64, u64)>, role: &str) -> (r: Result<&'a [u8], IngestError>)
    ensures
        span_fits(bytes@, span, 16) ==> (r matches Ok(s) && s@ == span_bytes(bytes@, span)),
        !span_fits(bytes@, span, 16) ==> r is Err,
{
    match span {
        None => {
            let mut detail = String::from_str("parse returned no ");
            detail.append(role);
            detail.append(" span on success");
            Err(language(detail.as_str()))
        },
        Some((start, length)) => {
            if length > MAX_SPELLING_BYTES as u64 {
                let mut detail = String::from_str(role);
                detail.append(" span length exceeds the spelling bound");
                return Err(language(detail.as_str()));
            }
            if start > bytes.len() as u64 || length > bytes.len() as u64 - start {
                let mut detail = String::from_str(role);
                detail.append(" span is outside the input");
                return Err(language(detail.as_str()));
            }
            let s = start as usize;
            let l = length as usize;
            Ok(&bytes[s..s + l])
        },
    }
}

/// A provenance span for one role word.
fn span(field: &str, range: Option<(u64, u64)>) -> (r: Span)
    requires
        range matches Some((s, l)) ==> s + l <= u64::MAX,
    ensures
        r@ == word_span_view(field@, range),
{
    match range {
        Some((start, length)) => Span {
            field: String::from_str(field),
            start: Some(start),
            end: Some(start + length),
        },
        None => Span { field: String::from_str(field), start: None, end: None },
    }
}

impl Adapter for TextAdapter {
    type Input<'a> = &'a str;

    fn kind(&self) -> (r: AdapterKind)
        ensures
            r == AdapterKind::Text,
    {
        AdapterKind::Text
    }

    fn ingest(&self, rt: &LanguageRuntime, input: &str) -> (r: Result<Ingested, IngestError>)
        ensures
            outcome(r) == text_ingest_spec(input.spec_bytes()),
            r matches Ok(i) ==> converging(i.fragment@, i.facts@),
    {
        let bytes = input.as_bytes();
        if bytes.len() > MAX_TEXT_BYTES {
            let mut detail = String::from_str("input is ");
            push_decimal(&mut detail, bytes.len() as u64);
            detail.append(" bytes, bound is 64");
            return Err(overlong("text", detail.as_str()));
        }
        let parse = match rt.parse_transfer(bytes) {
            Ok(p) => p,
            Err(e) => {
                return Err(e);
            },
        };
        if parse.status == status::UNSUPPORTED_VERB {
            return Err(
                IngestError::unsupported(
                    "text",
                    "no supported transfer verb (gave/give/gives/received/receive/receives)",
                ),
            );
        } else if parse.status == status::MISSING_FIELD {
            return Err(
                IngestError::missing_field("text", "transfer participant (source, target, or object)"),
            );
        } else if parse.status == status::MALFORMED_QUANTITY {
            return Err(IngestError::malformed("text", "quantity is not zero..ten or 0..999"));
        } else if parse.status == status::EMPTY {
            return Err(IngestError::malformed("text", "empty input"));
        } else if parse.status == status::BAD_SHAPE {
            return Err(
                IngestError::malformed("text", "input is outside the bounded transfer grammar"),
            );
        } else if parse.status != status::OK {
            let mut detail = String::from_str("unknown parse status ");
            let rendered = decimal_i64(parse.status);
            detail.append(rendered.as_str());
            return Err(language(detail.as_str()));
        }
        proof {
            lemma_parse_spans(bytes@);
        }
        let source = slice(bytes, parse.source, "source")?;
        let target = slice(bytes, parse.target, "target")?;
        let object_span = slice(bytes, parse.object, "object")?;
        let quantity = if parse.quantity_present {
            Some(parse.quantity)
        } else {
            None
        };
        let mut spans: Vec<Span> = Vec::new();
        spans.push(span("word:verb", parse.verb_span));
        spans.push(span("word:source", parse.source));
        spans.push(span("word:target", parse.target));
        spans.push(span("word:object", parse.object));
        if parse.quantity_present {
            spans.push(span("word:quantity", parse.quantity_span));
        }
        let facts = CanonicalFacts {
            event: EVENT_TRANSFER,
            source: vstd::slice::slice_to_vec(source),
            target: vstd::slice::slice_to_vec(target),
            object_code: parse.object_code,
            object_spelling: vstd::slice::slice_to_vec(object_span),
            quantity,
        };
        let ghost sv = spans@.map_values(|s: Span| s@);
        assert(sv =~= text_spans(parse));
        let ingested = assemble(
            AdapterKind::Text,
            "mncs.ingest/ingest_parse",
            bytes,
            facts,
            spans,
            parse.object_code == 0,
        );
        proof {
            let t = bytes@;
            lemma_text_lays_out(t);
            lemma_parse_word_edges(t);
            encode_utf8_valid_utf8(input@);
            lemma_role_word_valid(t, parse.source);
            lemma_role_word_valid(t, parse.target);
            lemma_role_word_valid(t, parse.object);
        }
        Ok(ingested)
    }
}

/// A whole word of a valid UTF-8 sentence is valid UTF-8.
proof fn lemma_role_word_valid(t: Seq<u8>, span: Option<(u64, u64)>)
    requires
        valid_utf8(t),
        role_word_edges(t, span),
    ensures
        valid_utf8(span_bytes(t, span)),
{
    if let Some((s, l)) = span {
        lemma_ascii_delimited_valid(t, s as int, l as int);
    }
}

/// A successful text ingest lays its facts out canonically.
pub proof fn lemma_text_lays_out(t: Seq<u8>)
    ensures
        text_ingest_spec(t) matches Ok((f, x)) ==> laid_out(f, x),
{
    let p = parse_spec(t);
    lemma_parse_object_code(t);
    if t.len() <= 64 && p.status == 0 {
        let facts = text_facts(t, p);
        assert(text_ingest_spec(t)->Ok_0.0 == layout_of(
            AdapterKind::Text,
            "mncs.ingest/ingest_parse"@,
            t,
            facts,
            text_spans(p),
        ));
    }
}

} // verus!
