//! Native adapter.
//!
//! Input that is already machine-native and typed needs relatively little
//! reinterpretation: validation, provenance attachment, and canonical
//! serialization. The input shape uses canonical codes directly, so a
//! wrong code or a code/spelling conflict fails here instead of being
//! reinterpreted into something convenient. Meaning still goes through
//! [`LanguageRuntime::validate`] like every other adapter.

use vstd::prelude::*;
use vstd::string::*;
use vstd::utf8::*;

use crate::adapters::{outcome, Adapter};
use crate::canonical::{
    assemble, assembled, converging, laid_out, layout_of, CanonicalFacts, FactsView, Ingested,
};
use crate::error::{language, overlong, ErrorView, IngestError};
use crate::ir::{AdapterKind, FragmentView, Span, SpanView, MAX_SPELLING_BYTES, OBJECT_UNKNOWN};
use crate::language::{
    ascii_lower, eq_ci, eq_ignore_case, object_code_of, validate_spec, LanguageRuntime, WORD_APPLE, WORD_APPLES, WORD_ORANGE,
    WORD_ORANGES,
};
use crate::text::{debug_quoted, debug_str, decimal_i64, decimal_int, string_bytes};

verus! {

/// Already-typed machine-native transfer input.
#[derive(Debug, Clone)]
pub struct NativeTransfer {
    /// Canonical event code (`1` = transfer).
    pub event_code: i64,
    pub source: String,
    pub target: String,
    /// Canonical object code (`1` = apple, `2` = orange, `0` = unknown).
    pub object_code: i64,
    /// Required when `object_code` is `0`; must be absent-or-agreeing
    /// otherwise, so a code can never silently override a spelling.
    pub object_spelling: Option<String>,
    /// `None` is an absent quantity; `Some(0)` is an explicit zero.
    pub quantity: Option<i64>,
}

pub ghost struct NativeTransferView {
    pub event_code: i64,
    pub source: Seq<char>,
    pub target: Seq<char>,
    pub object_code: i64,
    pub object_spelling: Option<Seq<char>>,
    pub quantity: Option<i64>,
}

impl View for NativeTransfer {
    type V = NativeTransferView;

    open spec fn view(&self) -> NativeTransferView {
        NativeTransferView {
            event_code: self.event_code,
            source: self.source@,
            target: self.target@,
            object_code: self.object_code,
            object_spelling: match self.object_spelling {
                Some(s) => Some(s@),
                None => None,
            },
            quantity: self.quantity,
        }
    }
}

pub struct NativeAdapter;

pub open spec fn empty_field_error(adapter: Seq<char>, field: Seq<char>) -> ErrorView {
    ErrorView::Malformed { adapter, detail: "field "@ + field + " must not be empty"@ }
}

pub open spec fn overlong_field_error(adapter: Seq<char>, field: Seq<char>) -> ErrorView {
    ErrorView::Overlong { adapter, detail: "field "@ + field + " exceeds 16 bytes"@ }
}

/// The first failure among "non-empty" and "at most 16 bytes" for a field.
pub open spec fn field_check(adapter: Seq<char>, field: Seq<char>, value: Seq<char>) -> Option<ErrorView> {
    if value.len() == 0 {
        Some(empty_field_error(adapter, field))
    } else if encode_utf8(value).len() > 16 {
        Some(overlong_field_error(adapter, field))
    } else {
        None
    }
}

/// Singular and plural spellings of a known object code.
pub open spec fn singular_word(code: i64) -> Seq<u8> {
    if code == 1 {
        WORD_APPLE@
    } else {
        WORD_ORANGE@
    }
}

pub open spec fn plural_word(code: i64) -> Seq<u8> {
    if code == 1 {
        WORD_APPLES@
    } else {
        WORD_ORANGES@
    }
}

pub open spec fn singular_label(code: i64) -> Seq<char> {
    if code == 1 {
        "apple"@
    } else {
        "orange"@
    }
}

/// The object spelling the native input stands for, or why it is refused.
pub open spec fn native_spelling(n: NativeTransferView) -> Result<Seq<u8>, ErrorView> {
    if n.object_code == 1 || n.object_code == 2 {
        match n.object_spelling {
            Some(sp) => {
                let b = encode_utf8(sp);
                if !eq_ignore_case(b, singular_word(n.object_code)) && !eq_ignore_case(
                    b,
                    plural_word(n.object_code),
                ) {
                    Err(
                        ErrorView::ConflictingFields {
                            adapter: "native"@,
                            detail: "object code "@ + decimal_int(n.object_code as int)
                                + " means "@ + debug_quoted(singular_label(n.object_code))
                                + " but spelling is "@ + debug_quoted(sp),
                        },
                    )
                } else {
                    Ok(b)
                }
            },
            None => Ok(singular_word(n.object_code)),
        }
    } else if n.object_code == 0 {
        match n.object_spelling {
            Some(sp) => match field_check("native"@, "object_spelling"@, sp) {
                Some(e) => Err(e),
                None => Ok(encode_utf8(sp)),
            },
            None => Err(
                ErrorView::MissingField {
                    adapter: "native"@,
                    field: "object_spelling for unknown object"@,
                },
            ),
        }
    } else {
        Err(
            ErrorView::Unsupported {
                adapter: "native"@,
                detail: "unknown native object code "@ + decimal_int(n.object_code as int),
            },
        )
    }
}

/// The replay text of a native input: `native:event:source:target:object:quantity`.
pub open spec fn native_raw(n: NativeTransferView) -> Seq<char> {
    "native:"@ + decimal_int(n.event_code as int) + ":"@ + n.source + ":"@ + n.target + ":"@
        + decimal_int(n.object_code as int) + ":"@ + match n.quantity {
        Some(q) => decimal_int(q as int),
        None => seq![],
    }
}

pub open spec fn native_spans() -> Seq<SpanView> {
    seq![
        SpanView { field: "native:source"@, start: None, end: None },
        SpanView { field: "native:target"@, start: None, end: None },
        SpanView { field: "native:object"@, start: None, end: None },
        SpanView { field: "native:quantity"@, start: None, end: None },
    ]
}

/// What ingesting one native transfer yields.
pub open spec fn native_ingest_spec(n: NativeTransferView) -> Result<(FragmentView, FactsView), ErrorView> {
    if n.source.len() == 0 {
        Err(empty_field_error("native"@, "source"@))
    } else if n.target.len() == 0 {
        Err(empty_field_error("native"@, "target"@))
    } else if encode_utf8(n.source).len() > 16 {
        Err(overlong_field_error("native"@, "source"@))
    } else if encode_utf8(n.target).len() > 16 {
        Err(overlong_field_error("native"@, "target"@))
    } else {
        match native_spelling(n) {
            Err(e) => Err(e),
            Ok(spelling) => {
                let status = validate_spec(
                    n.event_code,
                    true,
                    true,
                    n.quantity is Some,
                    match n.quantity {
                        Some(q) => q,
                        None => 0,
                    },
                );
                if status == 1 {
                    Err(
                        ErrorView::Unsupported {
                            adapter: "native"@,
                            detail: "unknown native event code "@ + decimal_int(
                                n.event_code as int,
                            ),
                        },
                    )
                } else if status == 2 {
                    Err(
                        ErrorView::MissingField {
                            adapter: "native"@,
                            field: "transfer participant (source, target, or object)"@,
                        },
                    )
                } else if status == 3 {
                    Err(
                        ErrorView::Malformed {
                            adapter: "native"@,
                            detail: "quantity must be 0..=999"@,
                        },
                    )
                } else {
                    let facts = FactsView {
                        event: n.event_code,
                        source: encode_utf8(n.source),
                        target: encode_utf8(n.target),
                        object_code: n.object_code,
                        object_spelling: spelling,
                        quantity: n.quantity,
                    };
                    Ok(
                        (
                            assembled(
                                AdapterKind::Native,
                                "mncs.ingest/ingest_validate (native)"@,
                                encode_utf8(native_raw(n)),
                                facts,
                                native_spans(),
                                n.object_code == 0,
                            ),
                            facts,
                        ),
                    )
                }
            },
        }
    }
}

fn non_empty(value: &str, adapter: &str, field: &str) -> (r: Result<(), IngestError>)
    ensures
        value@.len() == 0 ==> (r matches Err(e) && e@ == empty_field_error(adapter@, field@)),
        value@.len() != 0 ==> r is Ok,
{
    if value.is_empty() {
        let mut detail = String::from_str("field ");
        detail.append(field);
        detail.append(" must not be empty");
        return Err(IngestError::malformed(adapter, detail.as_str()));
    }
    Ok(())
}

fn bound(value: &str, adapter: &str, field: &str) -> (r: Result<(), IngestError>)
    ensures
        value.spec_bytes().len() > 16 ==> (r matches Err(e) && e@ == overlong_field_error(
            adapter@,
            field@,
        )),
        value.spec_bytes().len() <= 16 ==> r is Ok,
{
    if value.as_bytes().len() > MAX_SPELLING_BYTES {
        let mut detail = String::from_str("field ");
        detail.append(field);
        detail.append(" exceeds 16 bytes");
        return Err(overlong(adapter, detail.as_str()));
    }
    Ok(())
}

impl Adapter for NativeAdapter {
    type Input<'a> = NativeTransfer;

    fn kind(&self) -> (r: AdapterKind)
        ensures
            r == AdapterKind::Native,
    {
        AdapterKind::Native
    }

    fn ingest(&self, rt: &LanguageRuntime, input: NativeTransfer) -> (r: Result<Ingested, IngestError>)
        ensures
            outcome(r) == native_ingest_spec(input@),
            r matches Ok(i) ==> converging(i.fragment@, i.facts@),
    {
        let ghost n = input@;
        non_empty(input.source.as_str(), "native", "source")?;
        non_empty(input.target.as_str(), "native", "target")?;
        bound(input.source.as_str(), "native", "source")?;
        bound(input.target.as_str(), "native", "target")?;
        let code = input.object_code;
        let object_spelling: Vec<u8> = if code == 1 || code == 2 {
            match &input.object_spelling {
                Some(spelling) => {
                    let b = spelling.as_str().as_bytes();
                    let agrees = if code == 1 {
                        eq_ci(b, &WORD_APPLE) || eq_ci(b, &WORD_APPLES)
                    } else {
                        eq_ci(b, &WORD_ORANGE) || eq_ci(b, &WORD_ORANGES)
                    };
                    if !agrees {
                        let mut detail = String::from_str("object code ");
                        let rendered = decimal_i64(code);
                        detail.append(rendered.as_str());
                        detail.append(" means ");
                        let canonical = if code == 1 {
                            debug_str("apple")
                        } else {
                            debug_str("orange")
                        };
                        detail.append(canonical.as_str());
                        detail.append(" but spelling is ");
                        let shown = debug_str(spelling.as_str());
                        detail.append(shown.as_str());
                        return Err(
                            IngestError::ConflictingFields {
                                adapter: String::from_str("native"),
                                detail,
                            },
                        );
                    }
                    vstd::slice::slice_to_vec(b)
                },
                None => {
                    if code == 1 {
                        vstd::slice::slice_to_vec(vstd::array::array_as_slice(&WORD_APPLE))
                    } else {
                        vstd::slice::slice_to_vec(vstd::array::array_as_slice(&WORD_ORANGE))
                    }
                },
            }
        } else if code == 0 {
            match &input.object_spelling {
                Some(spelling) => {
                    non_empty(spelling.as_str(), "native", "object_spelling")?;
                    bound(spelling.as_str(), "native", "object_spelling")?;
                    string_bytes(spelling.as_str())
                },
                None => {
                    return Err(
                        IngestError::missing_field("native", "object_spelling for unknown object"),
                    );
                },
            }
        } else {
            let mut detail = String::from_str("unknown native object code ");
            let rendered = decimal_i64(code);
            detail.append(rendered.as_str());
            return Err(IngestError::unsupported("native", detail.as_str()));
        };
        assert(native_spelling(n) == Ok::<Seq<u8>, ErrorView>(object_spelling@));
        let qty = match input.quantity {
            Some(q) => q,
            None => 0,
        };
        let verdict = rt.validate(
            input.event_code,
            !input.source.as_str().is_empty(),
            !input.target.as_str().is_empty(),
            input.quantity.is_some(),
            qty,
        )?;
        if verdict == 1 {
            let mut detail = String::from_str("unknown native event code ");
            let rendered = decimal_i64(input.event_code);
            detail.append(rendered.as_str());
            return Err(IngestError::unsupported("native", detail.as_str()));
        } else if verdict == 2 {
            return Err(
                IngestError::missing_field(
                    "native",
                    "transfer participant (source, target, or object)",
                ),
            );
        } else if verdict == 3 {
            return Err(IngestError::malformed("native", "quantity must be 0..=999"));
        } else if verdict != 0 {
            return Err(language("unknown validate status"));
        }
        let mut raw = String::from_str("native:");
        let event_text = decimal_i64(input.event_code);
        raw.append(event_text.as_str());
        raw.append(":");
        raw.append(input.source.as_str());
        raw.append(":");
        raw.append(input.target.as_str());
        raw.append(":");
        let code_text = decimal_i64(code);
        raw.append(code_text.as_str());
        raw.append(":");
        match input.quantity {
            Some(q) => {
                let q_text = decimal_i64(q);
                raw.append(q_text.as_str());
            },
            None => {},
        }
        assert(raw@ =~= native_raw(n));
        let raw_bytes = string_bytes(raw.as_str());
        let mut spans: Vec<Span> = Vec::new();
        spans.push(Span { field: String::from_str("native:source"), start: None, end: None });
        spans.push(Span { field: String::from_str("native:target"), start: None, end: None });
        spans.push(Span { field: String::from_str("native:object"), start: None, end: None });
        spans.push(Span { field: String::from_str("native:quantity"), start: None, end: None });
        let ghost sv = spans@.map_values(|s: Span| s@);
        assert(sv =~= native_spans());
        let facts = CanonicalFacts {
            event: input.event_code,
            source: string_bytes(input.source.as_str()),
            target: string_bytes(input.target.as_str()),
            object_code: code,
            object_spelling,
            quantity: input.quantity,
        };
        let ingested = assemble(
            AdapterKind::Native,
            "mncs.ingest/ingest_validate (native)",
            raw_bytes.as_slice(),
            facts,
            spans,
            code == OBJECT_UNKNOWN,
        );
        proof {
            lemma_native_lays_out(n);
            encode_utf8_valid_utf8(input.source@);
            encode_utf8_valid_utf8(input.target@);
            if code == 0 {
                match input.object_spelling {
                    Some(spelling) => {
                        encode_utf8_valid_utf8(spelling@);
                    },
                    None => {},
                }
            }
        }
        Ok(ingested)
    }
}

/// A native transfer of a known object between two well-formed entities
/// ingests exactly when its quantity lies in `0..=999`, and then carries
/// that quantity: in its facts and as the value of its quantity atom.
pub proof fn lemma_native_quantity_range(n: NativeTransferView, q: i64)
    requires
        n.event_code == 1,
        n.source.len() > 0,
        n.target.len() > 0,
        encode_utf8(n.source).len() <= 16,
        encode_utf8(n.target).len() <= 16,
        n.object_code == 1 || n.object_code == 2,
        n.object_spelling is None,
        n.quantity == Some(q),
    ensures
        native_ingest_spec(n) is Ok <==> 0 <= q <= 999,
        native_ingest_spec(n) matches Ok((f, x)) ==> x.quantity == Some(q) && f.atoms.len() == 5
            && f.atoms[4].value == Some(q),
        !(0 <= q <= 999) ==> native_ingest_spec(n) == Err::<(FragmentView, FactsView), ErrorView>(
            ErrorView::Malformed { adapter: "native"@, detail: "quantity must be 0..=999"@ },
        ),
{
}

/// No word spells both an apple and an orange.
proof fn lemma_object_families_disjoint(b: Seq<u8>)
    ensures
        !((eq_ignore_case(b, WORD_APPLE@) || eq_ignore_case(b, WORD_APPLES@)) && (eq_ignore_case(
            b,
            WORD_ORANGE@,
        ) || eq_ignore_case(b, WORD_ORANGES@))),
{
    assert(WORD_APPLE@.len() == 5 && WORD_APPLES@.len() == 6);
    assert(WORD_ORANGE@.len() == 6 && WORD_ORANGES@.len() == 7);
    assert(WORD_APPLES@[0] == 97 && WORD_ORANGE@[0] == 111);
    if eq_ignore_case(b, WORD_APPLES@) && eq_ignore_case(b, WORD_ORANGE@) {
        assert(ascii_lower(b[0]) == ascii_lower(WORD_APPLES@[0]));
        assert(ascii_lower(b[0]) == ascii_lower(WORD_ORANGE@[0]));
    }
}

/// For a known object code, a given spelling conflicts with the code
/// exactly when it does not classify as that code: code 1 agrees with
/// `apple` and `apples`, code 2 with `orange` and `oranges`, each in any
/// letter case (so the canonical singular always agrees). An agreeing
/// spelling is kept as given; a transfer with no quantity and an agreeing
/// spelling ingests with that spelling in its facts.
pub proof fn lemma_native_spelling_agrees(n: NativeTransferView, sp: Seq<char>)
    requires
        n.object_code == 1 || n.object_code == 2,
        n.object_spelling == Some(sp),
        n.source.len() > 0,
        n.target.len() > 0,
        encode_utf8(n.source).len() <= 16,
        encode_utf8(n.target).len() <= 16,
    ensures
        (native_ingest_spec(n) matches Err(ErrorView::ConflictingFields { .. })) <==> object_code_of(
            encode_utf8(sp),
        ) != n.object_code,
        object_code_of(encode_utf8(sp)) == n.object_code ==> native_spelling(n) == Ok::<
            Seq<u8>,
            ErrorView,
        >(encode_utf8(sp)),
        (object_code_of(encode_utf8(sp)) == n.object_code && n.event_code == 1 && n.quantity is None)
            ==> (native_ingest_spec(n) matches Ok((f, x)) && x.object_spelling == encode_utf8(sp)
            && x.object_code == n.object_code),
{
    lemma_object_families_disjoint(encode_utf8(sp));
}

/// A successful native ingest lays its facts out canonically.
pub proof fn lemma_native_lays_out(n: NativeTransferView)
    ensures
        native_ingest_spec(n) matches Ok((f, x)) ==> laid_out(f, x),
{
    if native_ingest_spec(n) is Ok {
        let x = native_ingest_spec(n)->Ok_0.1;
        assert(native_ingest_spec(n)->Ok_0.0 == layout_of(
            AdapterKind::Native,
            "mncs.ingest/ingest_validate (native)"@,
            encode_utf8(native_raw(n)),
            x,
            native_spans(),
        ));
    }
}

} // verus!
