//! Structured event / JSON adapter.
//!
//! The simplest reliable representation and the canonical-contract anchor:
//!
//! ```json
//! {"event": "transfer", "from": "Alexander", "to": "Finn",
//!  "object": "apple", "quantity": 3}
//! ```
//!
//! `event`, `from`, and `to` are required; `object` and `quantity` are
//! optional but explicit when present (`quantity: 0` differs from a
//! missing quantity). A document without `object` names no object word:
//! its object is the unknown code with an empty spelling, and its
//! provenance carries no `json:object` span. Unknown fields are rejected:
//! this is a strict machine boundary, and silent field-dropping would
//! launder meaning.
//!
//! The adapter only decodes JSON (through `serde_json`) and extracts
//! fields. Event support, object codes, and quantity validation are policy
//! verdicts of [`LanguageRuntime`].

use vstd::prelude::*;
use vstd::string::*;
use vstd::utf8::*;

use crate::adapters::{outcome, Adapter};
use crate::adapters::native::{empty_field_error, field_check, overlong_field_error};
use crate::canonical::{
    assemble, assembled, converging, laid_out, layout_of, CanonicalFacts, FactsView, Ingested,
};
use crate::error::{language, overlong, ErrorView, IngestError};
use crate::ir::{AdapterKind, FragmentView, Span, SpanView, MAX_SPELLING_BYTES, OBJECT_UNKNOWN};
use crate::language::{event_code_of, object_code_of, validate_spec, LanguageRuntime};
use crate::text::{debug_quoted, debug_str, str_eq, string_bytes};

verus! {

pub struct StructuredAdapter;

/// What the adapter reads of one top-level JSON value.
#[derive(Debug, Clone, PartialEq, Eq)]
pub enum JsonField {
    /// A JSON string.
    Str(String),
    /// A JSON number representable as `i64`.
    Int(i64),
    /// Anything else (other numbers, booleans, null, arrays, objects).
    Other,
}

/// A decoded JSON document, as far as the adapter reads it.
#[derive(Debug, Clone, PartialEq, Eq)]
pub enum JsonDocument {
    /// The bytes are not JSON; the decoder's message.
    Invalid(String),
    /// Valid JSON whose top-level value is not an object.
    NotObject,
    /// A top-level object: its members in decoder order.
    Object(Vec<(String, JsonField)>),
}

pub ghost enum JsonFieldView {
    Str(Seq<char>),
    Int(i64),
    Other,
}

pub ghost enum JsonDocumentView {
    Invalid(Seq<char>),
    NotObject,
    Object(Seq<(Seq<char>, JsonFieldView)>),
}

impl View for JsonField {
    type V = JsonFieldView;

    open spec fn view(&self) -> JsonFieldView {
        match self {
            JsonField::Str(s) => JsonFieldView::Str(s@),
            JsonField::Int(n) => JsonFieldView::Int(*n),
            JsonField::Other => JsonFieldView::Other,
        }
    }
}

impl View for JsonDocument {
    type V = JsonDocumentView;

    open spec fn view(&self) -> JsonDocumentView {
        match self {
            JsonDocument::Invalid(message) => JsonDocumentView::Invalid(message@),
            JsonDocument::NotObject => JsonDocumentView::NotObject,
            JsonDocument::Object(members) => JsonDocumentView::Object(
                members@.map_values(|m: (String, JsonField)| (m.0@, m.1@)),
            ),
        }
    }
}

/// What `serde_json` decodes a byte string to, as the adapter reads it.
pub uninterp spec fn json_document(input: Seq<u8>) -> JsonDocumentView;

/// Calls `serde_json::from_slice` into `serde_json::Value` and keeps what
/// the adapter reads: the decoder's error message, whether the top-level
/// value is an object, and for each member its key and whether its value
/// is a string, an `i64`-representable number (`Number::as_i64`), or
/// something else. The result is only named (`json_document`); nothing
/// is stated of JSON syntax itself.
#[verifier::external_body]
fn decode_json(input: &[u8]) -> (r: JsonDocument)
    ensures
        r@ == json_document(input@),
{
    match serde_json::from_slice::<serde_json::Value>(input) {
        Err(error) => JsonDocument::Invalid(error.to_string()),
        Ok(serde_json::Value::Object(map)) => JsonDocument::Object(map.into_iter().map(|(key, value)| (key, match value {
            serde_json::Value::String(text) => JsonField::Str(text),
            serde_json::Value::Number(number) => match number.as_i64() {
                Some(n) => JsonField::Int(n),
                None => JsonField::Other,
            },
            _ => JsonField::Other,
        })).collect()),
        Ok(_) => JsonDocument::NotObject,
    }
}

/// The members the adapter accepts.
pub open spec fn allowed_key(k: Seq<char>) -> bool {
    k == "event"@ || k == "from"@ || k == "to"@ || k == "object"@ || k == "quantity"@
}

/// Byte-lexicographic order (the order of `str`).
pub open spec fn lex_le(a: Seq<u8>, b: Seq<u8>) -> bool
    decreases a.len(),
{
    if a.len() == 0 {
        true
    } else if b.len() == 0 {
        false
    } else if a[0] < b[0] {
        true
    } else if a[0] > b[0] {
        false
    } else {
        lex_le(a.drop_first(), b.drop_first())
    }
}

/// The smallest (in `str` order) member key outside the accepted set.
pub open spec fn min_disallowed(members: Seq<(Seq<char>, JsonFieldView)>) -> Option<Seq<char>>
    decreases members.len(),
{
    if members.len() == 0 {
        None
    } else {
        let rest = min_disallowed(members.drop_last());
        let k = members.last().0;
        if allowed_key(k) {
            rest
        } else {
            match rest {
                None => Some(k),
                Some(m) => if lex_le(encode_utf8(m), encode_utf8(k)) {
                    Some(m)
                } else {
                    Some(k)
                },
            }
        }
    }
}

/// The value of the first member named `name`.
pub open spec fn lookup(members: Seq<(Seq<char>, JsonFieldView)>, name: Seq<char>) -> Option<JsonFieldView>
    decreases members.len(),
{
    if members.len() == 0 {
        None
    } else if members[0].0 == name {
        Some(members[0].1)
    } else {
        lookup(members.drop_first(), name)
    }
}

pub open spec fn string_value(v: JsonFieldView, field: Seq<char>) -> Result<Seq<char>, ErrorView> {
    match v {
        JsonFieldView::Str(s) => Ok(s),
        _ => Err(
            ErrorView::Malformed {
                adapter: "structured"@,
                detail: "field "@ + field + " must be a string"@,
            },
        ),
    }
}

pub open spec fn required_string_spec(
    members: Seq<(Seq<char>, JsonFieldView)>,
    field: Seq<char>,
) -> Result<Seq<char>, ErrorView> {
    match lookup(members, field) {
        None => Err(ErrorView::MissingField { adapter: "structured"@, field }),
        Some(v) => string_value(v, field),
    }
}

pub open spec fn required_entity_spec(
    members: Seq<(Seq<char>, JsonFieldView)>,
    field: Seq<char>,
) -> Result<Seq<char>, ErrorView> {
    match required_string_spec(members, field) {
        Err(e) => Err(e),
        Ok(s) => match field_check("structured"@, field, s) {
            Some(e) => Err(e),
            None => Ok(s),
        },
    }
}

pub open spec fn quantity_spec(members: Seq<(Seq<char>, JsonFieldView)>) -> Result<Option<i64>, ErrorView> {
    match lookup(members, "quantity"@) {
        None => Ok(None),
        Some(JsonFieldView::Int(q)) => Ok(Some(q)),
        Some(_) => Err(
            ErrorView::Malformed {
                adapter: "structured"@,
                detail: "field quantity must be an integer"@,
            },
        ),
    }
}

pub open spec fn json_span(field: Seq<char>) -> SpanView {
    SpanView { field, start: None, end: None }
}

/// The object member: absent (`None`), or its string value once checked
/// non-empty and within the spelling bound.
pub open spec fn object_member_spec(members: Seq<(Seq<char>, JsonFieldView)>) -> Result<
    Option<Seq<char>>,
    ErrorView,
> {
    match lookup(members, "object"@) {
        None => Ok(None),
        Some(v) => match string_value(v, "object"@) {
            Err(e) => Err(e),
            Ok(word) => match field_check("structured"@, "object"@, word) {
                Some(e) => Err(e),
                None => Ok(Some(word)),
            },
        },
    }
}

/// The object code of an object member: its classification, or the
/// unknown code when the member is absent.
pub open spec fn member_object_code(object: Option<Seq<char>>) -> i64 {
    match object {
        Some(word) => object_code_of(encode_utf8(word)),
        None => 0,
    }
}

/// The object spelling of an object member: its bytes, or nothing when
/// the member is absent.
pub open spec fn member_object_spelling(object: Option<Seq<char>>) -> Seq<u8> {
    match object {
        Some(word) => encode_utf8(word),
        None => Seq::empty(),
    }
}

/// One span per member present, in the order event, from, to, object,
/// quantity.
pub open spec fn structured_spans(object_present: bool, quantity: Option<i64>) -> Seq<SpanView> {
    let base = seq![json_span("json:event"@), json_span("json:from"@), json_span("json:to"@)];
    let with_object = if object_present {
        base.push(json_span("json:object"@))
    } else {
        base
    };
    if quantity is Some {
        with_object.push(json_span("json:quantity"@))
    } else {
        with_object
    }
}

/// The rest of structured ingestion once the members are known to be
/// accepted ones.
pub open spec fn members_ingest_spec(
    members: Seq<(Seq<char>, JsonFieldView)>,
    input: Seq<u8>,
) -> Result<(FragmentView, FactsView), ErrorView> {
    match required_string_spec(members, "event"@) {
        Err(e) => Err(e),
        Ok(event_word) => {
            let event = event_code_of(encode_utf8(event_word));
            if event == 0 {
                Err(
                    ErrorView::Unsupported {
                        adapter: "structured"@,
                        detail: "unsupported event "@ + debug_quoted(event_word),
                    },
                )
            } else {
                match required_entity_spec(members, "from"@) {
                    Err(e) => Err(e),
                    Ok(source) => match required_entity_spec(members, "to"@) {
                        Err(e) => Err(e),
                        Ok(target) => match object_member_spec(members) {
                            Err(e) => Err(e),
                            Ok(object) => {
                                let code = member_object_code(object);
                                match quantity_spec(members) {
                                    Err(e) => Err(e),
                                    Ok(quantity) => {
                                        let status = validate_spec(
                                            event,
                                            true,
                                            true,
                                            quantity is Some,
                                            match quantity {
                                                Some(q) => q,
                                                None => 0,
                                            },
                                        );
                                        if status == 1 {
                                            Err(
                                                ErrorView::Unsupported {
                                                    adapter: "structured"@,
                                                    detail: "event failed MNCS validation"@,
                                                },
                                            )
                                        } else if status == 2 {
                                            Err(
                                                ErrorView::MissingField {
                                                    adapter: "structured"@,
                                                    field: "transfer participant (source, target, or object)"@,
                                                },
                                            )
                                        } else if status == 3 {
                                            Err(
                                                ErrorView::Malformed {
                                                    adapter: "structured"@,
                                                    detail: "quantity must be 0..=999"@,
                                                },
                                            )
                                        } else {
                                            let facts = FactsView {
                                                event,
                                                source: encode_utf8(source),
                                                target: encode_utf8(target),
                                                object_code: code,
                                                object_spelling: member_object_spelling(object),
                                                quantity,
                                            };
                                            Ok(
                                                (
                                                    assembled(
                                                        AdapterKind::Structured,
                                                        "mncs.ingest/ingest_validate+classify"@,
                                                        input,
                                                        facts,
                                                        structured_spans(object is Some, quantity),
                                                        code == 0,
                                                    ),
                                                    facts,
                                                ),
                                            )
                                        }
                                    },
                                }
                            },
                        },
                    },
                }
            }
        },
    }
}

/// What structured ingestion yields for a decoded document of `input`.
pub open spec fn structured_ingest_spec(
    document: JsonDocumentView,
    input: Seq<u8>,
) -> Result<(FragmentView, FactsView), ErrorView> {
    match document {
        JsonDocumentView::Invalid(message) => Err(
            ErrorView::Malformed { adapter: "structured"@, detail: "invalid JSON: "@ + message },
        ),
        JsonDocumentView::NotObject => Err(
            ErrorView::Malformed {
                adapter: "structured"@,
                detail: "top-level JSON value must be an object"@,
            },
        ),
        JsonDocumentView::Object(members) => match min_disallowed(members) {
            Some(k) => Err(ErrorView::UnexpectedField { adapter: "structured"@, field: k }),
            None => members_ingest_spec(members, input),
        },
    }
}

fn is_allowed(key: &str) -> (r: bool)
    ensures
        r == allowed_key(key@),
{
    str_eq(key, "event") || str_eq(key, "from") || str_eq(key, "to") || str_eq(key, "object")
        || str_eq(key, "quantity")
}

fn lex_le_bytes(a: &[u8], b: &[u8]) -> (r: bool)
    ensures
        r == lex_le(a@, b@),
{
    let mut i: usize = 0;
    assert(a@.skip(0) =~= a@);
    assert(b@.skip(0) =~= b@);
    while i < a.len()
        invariant
            i <= a@.len(),
            i <= b@.len(),
            lex_le(a@, b@) == lex_le(a@.skip(i as int), b@.skip(i as int)),
        decreases a@.len() - i,
    {
        if i >= b.len() {
            return false;
        }
        if a[i] < b[i] {
            return true;
        }
        if a[i] > b[i] {
            return false;
        }
        assert(a@.skip(i as int).drop_first() =~= a@.skip(i + 1));
        assert(b@.skip(i as int).drop_first() =~= b@.skip(i + 1));
        i += 1;
    }
    true
}

fn lookup_member<'a>(members: &'a Vec<(String, JsonField)>, name: &str) -> (r: Option<&'a JsonField>)
    ensures
        lookup(members@.map_values(|m: (String, JsonField)| (m.0@, m.1@)), name@) == match r {
            Some(f) => Some(f@),
            None => None::<JsonFieldView>,
        },
{
    let ghost view = members@.map_values(|m: (String, JsonField)| (m.0@, m.1@));
    let mut i: usize = 0;
    assert(view.skip(0) =~= view);
    while i < members.len()
        invariant
            i <= members@.len(),
            view == members@.map_values(|m: (String, JsonField)| (m.0@, m.1@)),
            lookup(view, name@) == lookup(view.skip(i as int), name@),
        decreases members@.len() - i,
    {
        assert(view.skip(i as int)[0] == view[i as int]);
        if str_eq(members[i].0.as_str(), name) {
            return Some(&members[i].1);
        }
        assert(view.skip(i as int).drop_first() =~= view.skip(i + 1));
        i += 1;
    }
    None
}

fn required_string(members: &Vec<(String, JsonField)>, field: &str) -> (r: Result<String, IngestError>)
    ensures
        match r {
            Ok(s) => required_string_spec(
                members@.map_values(|m: (String, JsonField)| (m.0@, m.1@)),
                field@,
            ) == Ok::<Seq<char>, ErrorView>(s@),
            Err(e) => required_string_spec(
                members@.map_values(|m: (String, JsonField)| (m.0@, m.1@)),
                field@,
            ) == Err::<Seq<char>, ErrorView>(e@),
        },
{
    match lookup_member(members, field) {
        None => Err(IngestError::missing_field("structured", field)),
        Some(value) => string_field(value, field),
    }
}

fn string_field(value: &JsonField, field: &str) -> (r: Result<String, IngestError>)
    ensures
        match r {
            Ok(s) => string_value(value@, field@) == Ok::<Seq<char>, ErrorView>(s@),
            Err(e) => string_value(value@, field@) == Err::<Seq<char>, ErrorView>(e@),
        },
{
    match value {
        JsonField::Str(text) => Ok(String::from_str(text.as_str())),
        _ => {
            let mut detail = String::from_str("field ");
            detail.append(field);
            detail.append(" must be a string");
            Err(IngestError::malformed("structured", detail.as_str()))
        },
    }
}

fn check_field(value: &str, field: &str) -> (r: Result<(), IngestError>)
    ensures
        match field_check("structured"@, field@, value@) {
            Some(e) => r matches Err(err) && err@ == e,
            None => r is Ok,
        },
{
    if value.is_empty() {
        let mut detail = String::from_str("field ");
        detail.append(field);
        detail.append(" must not be empty");
        return Err(IngestError::malformed("structured", detail.as_str()));
    }
    if value.as_bytes().len() > MAX_SPELLING_BYTES {
        let mut detail = String::from_str("field ");
        detail.append(field);
        detail.append(" exceeds 16 bytes");
        return Err(overlong("structured", detail.as_str()));
    }
    Ok(())
}

fn required_entity(members: &Vec<(String, JsonField)>, field: &str) -> (r: Result<String, IngestError>)
    ensures
        match r {
            Ok(s) => required_entity_spec(
                members@.map_values(|m: (String, JsonField)| (m.0@, m.1@)),
                field@,
            ) == Ok::<Seq<char>, ErrorView>(s@),
            Err(e) => required_entity_spec(
                members@.map_values(|m: (String, JsonField)| (m.0@, m.1@)),
                field@,
            ) == Err::<Seq<char>, ErrorView>(e@),
        },
{
    let value = required_string(members, field)?;
    check_field(value.as_str(), field)?;
    Ok(value)
}

fn object_member(members: &Vec<(String, JsonField)>) -> (r: Result<Option<String>, IngestError>)
    ensures
        match r {
            Ok(Some(s)) => object_member_spec(
                members@.map_values(|m: (String, JsonField)| (m.0@, m.1@)),
            ) == Ok::<Option<Seq<char>>, ErrorView>(Some(s@)),
            Ok(None) => object_member_spec(
                members@.map_values(|m: (String, JsonField)| (m.0@, m.1@)),
            ) == Ok::<Option<Seq<char>>, ErrorView>(None),
            Err(e) => object_member_spec(
                members@.map_values(|m: (String, JsonField)| (m.0@, m.1@)),
            ) == Err::<Option<Seq<char>>, ErrorView>(e@),
        },
{
    match lookup_member(members, "object") {
        None => Ok(None),
        Some(value) => {
            let word = string_field(value, "object")?;
            check_field(word.as_str(), "object")?;
            Ok(Some(word))
        },
    }
}

impl StructuredAdapter {
    /// Structured ingestion of a document already decoded from `input`.
    pub fn ingest_document(
        &self,
        rt: &LanguageRuntime,
        document: JsonDocument,
        input: &[u8],
    ) -> (r: Result<Ingested, IngestError>)
        ensures
            outcome(r) == structured_ingest_spec(document@, input@),
            r matches Ok(i) ==> converging(i.fragment@, i.facts@),
    {
        let ghost doc = document@;
        let members = match document {
            JsonDocument::Invalid(message) => {
                let mut detail = String::from_str("invalid JSON: ");
                detail.append(message.as_str());
                return Err(IngestError::malformed("structured", detail.as_str()));
            },
            JsonDocument::NotObject => {
                return Err(
                    IngestError::malformed("structured", "top-level JSON value must be an object"),
                );
            },
            JsonDocument::Object(members) => members,
        };
        let ghost mv = members@.map_values(|m: (String, JsonField)| (m.0@, m.1@));
        let mut unexpected: Option<usize> = None;
        let mut i: usize = 0;
        while i < members.len()
            invariant
                i <= members@.len(),
                mv == members@.map_values(|m: (String, JsonField)| (m.0@, m.1@)),
                min_disallowed(mv.take(i as int)) == match unexpected {
                    Some(k) => Some(mv[k as int].0),
                    None => None::<Seq<char>>,
                },
                unexpected matches Some(k) ==> k < i,
            decreases members@.len() - i,
        {
            assert(mv.take(i + 1).drop_last() =~= mv.take(i as int));
            if !is_allowed(members[i].0.as_str()) {
                match unexpected {
                    None => {
                        unexpected = Some(i);
                    },
                    Some(k) => {
                        if !lex_le_bytes(members[k].0.as_str().as_bytes(), members[i].0.as_str().as_bytes()) {
                            unexpected = Some(i);
                        }
                    },
                }
            }
            i += 1;
        }
        assert(mv.take(members@.len() as int) =~= mv);
        match unexpected {
            Some(k) => {
                return Err(
                    IngestError::UnexpectedField {
                        adapter: String::from_str("structured"),
                        field: String::from_str(members[k].0.as_str()),
                    },
                );
            },
            None => {},
        }
        let event_word = required_string(&members, "event")?;
        let event = rt.classify_event(event_word.as_str().as_bytes())?;
        if event == 0 {
            let mut detail = String::from_str("unsupported event ");
            let shown = debug_str(event_word.as_str());
            detail.append(shown.as_str());
            return Err(IngestError::unsupported("structured", detail.as_str()));
        }
        let source = required_entity(&members, "from")?;
        let target = required_entity(&members, "to")?;
        let object = object_member(&members)?;
        let object_code = match &object {
            Some(word) => rt.classify_object(word.as_str().as_bytes())?,
            None => OBJECT_UNKNOWN,
        };
        let quantity = match lookup_member(&members, "quantity") {
            None => None,
            Some(JsonField::Int(q)) => Some(*q),
            Some(_) => {
                return Err(
                    IngestError::malformed("structured", "field quantity must be an integer"),
                );
            },
        };
        let qty = match quantity {
            Some(q) => q,
            None => 0,
        };
        let verdict = rt.validate(event, true, true, quantity.is_some(), qty)?;
        if verdict == 1 {
            return Err(IngestError::unsupported("structured", "event failed MNCS validation"));
        } else if verdict == 2 {
            return Err(
                IngestError::missing_field(
                    "structured",
                    "transfer participant (source, target, or object)",
                ),
            );
        } else if verdict == 3 {
            return Err(IngestError::malformed("structured", "quantity must be 0..=999"));
        } else if verdict != 0 {
            return Err(language("unknown validate status"));
        }
        let facts = CanonicalFacts {
            event,
            source: string_bytes(source.as_str()),
            target: string_bytes(target.as_str()),
            object_code,
            object_spelling: match &object {
                Some(word) => string_bytes(word.as_str()),
                None => Vec::new(),
            },
            quantity,
        };
        let mut spans: Vec<Span> = Vec::new();
        spans.push(Span { field: String::from_str("json:event"), start: None, end: None });
        spans.push(Span { field: String::from_str("json:from"), start: None, end: None });
        spans.push(Span { field: String::from_str("json:to"), start: None, end: None });
        if object.is_some() {
            spans.push(Span { field: String::from_str("json:object"), start: None, end: None });
        }
        if quantity.is_some() {
            spans.push(Span { field: String::from_str("json:quantity"), start: None, end: None });
        }
        let ghost sv = spans@.map_values(|s: Span| s@);
        assert(sv =~= structured_spans(object is Some, quantity));
        let ingested = assemble(
            AdapterKind::Structured,
            "mncs.ingest/ingest_validate+classify",
            input,
            facts,
            spans,
            object_code == OBJECT_UNKNOWN,
        );
        proof {
            lemma_structured_lays_out(doc, input@);
            encode_utf8_valid_utf8(source@);
            encode_utf8_valid_utf8(target@);
            match object {
                Some(word) => {
                    encode_utf8_valid_utf8(word@);
                },
                None => {},
            }
        }
        Ok(ingested)
    }
}

impl Adapter for StructuredAdapter {
    /// Raw JSON document bytes.
    type Input<'a> = &'a [u8];

    fn kind(&self) -> (r: AdapterKind)
        ensures
            r == AdapterKind::Structured,
    {
        AdapterKind::Structured
    }

    fn ingest(&self, rt: &LanguageRuntime, input: &[u8]) -> (r: Result<Ingested, IngestError>)
        ensures
            outcome(r) == structured_ingest_spec(json_document(input@), input@),
            r matches Ok(i) ==> converging(i.fragment@, i.facts@),
    {
        let document = decode_json(input);
        self.ingest_document(rt, document, input)
    }
}

/// A structured transfer event whose other members are well formed
/// ingests exactly when its integer quantity lies in `0..=999`, and then
/// carries that quantity in its facts and as the value of its quantity
/// atom; outside that range it is refused as malformed.
pub proof fn lemma_structured_quantity_range(
    members: Seq<(Seq<char>, JsonFieldView)>,
    input: Seq<u8>,
    event_word: Seq<char>,
    q: i64,
)
    requires
        min_disallowed(members) is None,
        required_string_spec(members, "event"@) == Ok::<Seq<char>, ErrorView>(event_word),
        event_code_of(encode_utf8(event_word)) == 1,
        required_entity_spec(members, "from"@) is Ok,
        required_entity_spec(members, "to"@) is Ok,
        object_member_spec(members) is Ok,
        lookup(members, "quantity"@) == Some(JsonFieldView::Int(q)),
    ensures
        structured_ingest_spec(JsonDocumentView::Object(members), input) is Ok <==> 0 <= q <= 999,
        structured_ingest_spec(JsonDocumentView::Object(members), input) matches Ok((f, x))
            ==> x.quantity == Some(q) && f.atoms.len() == 5 && f.atoms[4].value == Some(q),
        !(0 <= q <= 999) ==> structured_ingest_spec(JsonDocumentView::Object(members), input)
            == Err::<(FragmentView, FactsView), ErrorView>(
            ErrorView::Malformed { adapter: "structured"@, detail: "quantity must be 0..=999"@ },
        ),
{
}

/// A successful structured ingest lays its facts out canonically.
pub proof fn lemma_structured_lays_out(document: JsonDocumentView, input: Seq<u8>)
    ensures
        structured_ingest_spec(document, input) matches Ok((f, x)) ==> laid_out(f, x),
{
    if structured_ingest_spec(document, input) is Ok {
        let r = structured_ingest_spec(document, input)->Ok_0;
        let x = r.1;
        assert(r.0 == layout_of(
            AdapterKind::Structured,
            "mncs.ingest/ingest_validate+classify"@,
            input,
            x,
            structured_spans(x.object_spelling.len() > 0, x.quantity),
        ));
    }
}

} // verus!
