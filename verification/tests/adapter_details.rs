use mncs_ingest::adapters::{Adapter, NativeAdapter, NativeTransfer, StructuredAdapter, TextAdapter};
use mncs_ingest::language::LanguageRuntime;
use mncs_ingest::IngestError;

fn rt() -> &'static LanguageRuntime {
    &LanguageRuntime
}

#[test]
fn conflicting_native_spelling_is_quoted() {
    let error = NativeAdapter
        .ingest(
            rt(),
            NativeTransfer {
                event_code: 1,
                source: "Alexander".to_owned(),
                target: "Finn".to_owned(),
                object_code: 2,
                object_spelling: Some("pear \"x\"".to_owned()),
                quantity: None,
            },
        )
        .unwrap_err();
    assert_eq!(
        error,
        IngestError::ConflictingFields {
            adapter: "native".to_owned(),
            detail: "object code 2 means \"orange\" but spelling is \"pear \\\"x\\\"\"".to_owned(),
        }
    );
}

#[test]
fn unsupported_structured_event_is_quoted() {
    let error = StructuredAdapter
        .ingest(rt(), br#"{"event":"hug","from":"A","to":"B","object":"apple"}"#)
        .unwrap_err();
    assert_eq!(
        error,
        IngestError::Unsupported {
            adapter: "structured".to_owned(),
            detail: "unsupported event \"hug\"".to_owned(),
        }
    );
}

#[test]
fn invalid_json_reports_the_decoder() {
    match StructuredAdapter.ingest(rt(), b"{not json").unwrap_err() {
        IngestError::Malformed { adapter, detail } => {
            assert_eq!(adapter, "structured");
            assert!(detail.starts_with("invalid JSON: "));
            assert!(detail.len() > "invalid JSON: ".len());
        }
        other => panic!("unexpected {other:?}"),
    }
}

#[test]
fn overlong_text_names_its_length() {
    let input = "Alexander gave Finn 3 apples and then Alexander gave Finn 3 apples.";
    assert_eq!(
        TextAdapter.ingest(rt(), input).unwrap_err(),
        IngestError::Overlong {
            adapter: "text".to_owned(),
            detail: format!("input is {} bytes, bound is 64", input.len()),
        }
    );
}

#[test]
fn unknown_object_label_keeps_its_spelling() {
    let ingested = TextAdapter.ingest(rt(), "Zo\u{eb} gave Finn 2 turnips.").unwrap();
    assert_eq!(ingested.fragment.atoms[1].label, "Zo\u{eb}");
    assert_eq!(ingested.fragment.atoms[3].label, "turnips");
    assert_eq!(ingested.fragment.unknowns, ["object:unknown:turnips".to_owned()]);
    assert_eq!(ingested.fragment.atoms[4].label, "2");
}

#[test]
fn structured_object_is_optional() {
    let ingested = StructuredAdapter
        .ingest(rt(), br#"{"event":"transfer","from":"Alexander","to":"Finn","quantity":3}"#)
        .expect("a document without object ingests");
    let fields: Vec<&str> = ingested
        .fragment
        .provenance
        .spans
        .iter()
        .map(|span| span.field.as_str())
        .collect();
    assert_eq!(fields, ["json:event", "json:from", "json:to", "json:quantity"]);
    assert_eq!(ingested.facts.object_code, 0);
    assert!(ingested.facts.object_spelling.is_empty());
    assert_eq!(ingested.fragment.unknowns, ["object:unknown:".to_owned()]);
    assert_eq!(ingested.fragment.atoms[4].label, "3");
}

#[test]
fn structured_present_object_keeps_its_span() {
    let ingested = StructuredAdapter
        .ingest(rt(), br#"{"event":"transfer","from":"Alexander","to":"Finn","object":"apple"}"#)
        .unwrap();
    let fields: Vec<&str> = ingested
        .fragment
        .provenance
        .spans
        .iter()
        .map(|span| span.field.as_str())
        .collect();
    assert_eq!(fields, ["json:event", "json:from", "json:to", "json:object"]);
    assert_eq!(ingested.facts.object_code, 1);
    assert!(ingested.fragment.unknowns.is_empty());
}
