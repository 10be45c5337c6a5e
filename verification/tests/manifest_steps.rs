use mncs_ingest::language::LanguageRuntime;
use mncs_ingest::manifest::{ingest_manifest, ManifestScanner, ManifestValue, NestState};
use mncs_ingest::IngestError;

fn rt() -> &'static LanguageRuntime {
    &LanguageRuntime
}

#[test]
fn scanner_state_crosses_calls() {
    let rt = rt();
    let mut scanner = ManifestScanner::new();
    let first = scanner.scan(rt, br#"{"a": ["#, false).unwrap();
    assert_eq!(first.status, 0);
    assert_eq!(first.state.depth, 2);
    assert_eq!(first.state.stack, [1, 2, 0, 0]);
    assert_eq!(first.state.expect, 1);
    assert_eq!(first.state.max_depth, 2);
    assert_eq!(first.consumed, 7);
    let second = scanner.scan(rt, b"1]}", false).unwrap();
    assert_eq!(second.status, 0);
    assert_eq!(second.state.expect, 4);
    assert_eq!(second.position, 10);
    let done = scanner.scan(rt, b"", true).unwrap();
    assert_eq!(done.status, 1);
}

#[test]
fn scanner_reports_the_malformed_byte() {
    let rt = rt();
    let verdict = rt.scan_chunk(&NestState::default(), br#"{"a" 1}"#, 100, false).unwrap();
    assert_eq!(verdict.status, 3);
    assert_eq!(verdict.position, 105);
    assert_eq!(verdict.consumed, 5);
    let open = rt.scan_chunk(&NestState::default(), br#"{"a": "x"#, 0, true).unwrap();
    assert_eq!(open.status, 2);
    assert_eq!(open.position, 8);
}

#[test]
fn pairs_are_counted_and_typed() {
    let rt = rt();
    let doc = br#"{"k": "v\n", "n": -42, "t": false, "o": {"x": [1]}}"#;
    assert_eq!(rt.pair_count(doc).unwrap(), 4);
    let first = rt.pair_at(doc, 0).unwrap();
    assert_eq!(first.key, b"k");
    assert_eq!(first.key_span, (2, 1));
    assert_eq!(first.value, ManifestValue::Str(b"v\n".to_vec()));
    assert_eq!(first.value_span, (6, 5));
    assert_eq!(rt.pair_at(doc, 1).unwrap().value, ManifestValue::Int(-42));
    assert_eq!(rt.pair_at(doc, 2).unwrap().value, ManifestValue::Bool(false));
    let nested = rt.pair_at(doc, 3).unwrap();
    assert_eq!(nested.value, ManifestValue::Nested { start: 40, len: 10 });
    assert_eq!(&doc[40..50], br#"{"x": [1]}"#);
    assert_eq!(rt.pair_at(doc, 4).unwrap_err(), IngestError::Language("pair past end".to_owned()));
    assert_eq!(rt.pair_count(b"{\"a\": 1").unwrap(), -1);
    assert_eq!(rt.pair_count(b" { } ").unwrap(), 0);
}

#[test]
fn manifest_errors_carry_positions_and_pairs() {
    let rt = rt();
    assert_eq!(
        ingest_manifest(rt, br#"{"a": 1]"#, 3).unwrap_err(),
        IngestError::Malformed {
            adapter: "manifest".to_owned(),
            detail: "malformed structure at byte 7".to_owned(),
        }
    );
    assert_eq!(
        ingest_manifest(rt, br#"{"a": 1"#, 2).unwrap_err(),
        IngestError::Malformed {
            adapter: "manifest".to_owned(),
            detail: "truncated document at byte 7".to_owned(),
        }
    );
    assert_eq!(
        ingest_manifest(rt, br#"{"a": 1, "b": 1.5}"#, 0).unwrap_err(),
        IngestError::Malformed { adapter: "manifest".to_owned(), detail: "pair 1: malformed".to_owned() }
    );
    let long_key = format!("{{\"{}\": 1}}", "k".repeat(33));
    assert_eq!(
        ingest_manifest(rt, long_key.as_bytes(), 0).unwrap_err(),
        IngestError::Overlong {
            adapter: "manifest".to_owned(),
            detail: "pair 0: oversize key or string value".to_owned(),
        }
    );
}

#[test]
fn document_and_pair_bounds() {
    let rt = rt();
    let big = format!("{{\"s\": \"{}\"}}", "v".repeat(600));
    assert_eq!(
        ingest_manifest(rt, big.as_bytes(), 0).unwrap_err(),
        IngestError::Overlong {
            adapter: "manifest".to_owned(),
            detail: "document exceeds 512 bytes".to_owned(),
        }
    );
    let mut many = String::from("{");
    for index in 0..65 {
        if index > 0 {
            many.push(',');
        }
        many.push_str("\"a\":1");
    }
    many.push('}');
    assert_eq!(
        ingest_manifest(rt, many.as_bytes(), 0).unwrap_err(),
        IngestError::Language("pair_count out of range: 65".to_owned())
    );
    let ok: String = many.replacen("\"a\":1,", "", 1);
    assert_eq!(ingest_manifest(rt, ok.as_bytes(), 0).unwrap().len(), 64);
}

#[test]
fn empty_document_is_truncated_and_root_must_be_an_object() {
    let rt = rt();
    assert_eq!(
        ingest_manifest(rt, b"", 4).unwrap_err(),
        IngestError::Malformed {
            adapter: "manifest".to_owned(),
            detail: "truncated document at byte 0".to_owned(),
        }
    );
    assert_eq!(
        ingest_manifest(rt, b" [1]", 0).unwrap_err(),
        IngestError::Malformed {
            adapter: "manifest".to_owned(),
            detail: "malformed structure at byte 1".to_owned(),
        }
    );
    assert_eq!(ingest_manifest(rt, b" {} ", 1).unwrap(), []);
}

#[test]
fn every_width_reads_the_same_pairs() {
    let rt = rt();
    let doc = br#"{"q": "a\"b", "n": 7, "z": [{"y": true}]}"#;
    let baseline = ingest_manifest(rt, doc, 0).unwrap();
    for width in 1..=doc.len() + 1 {
        assert_eq!(ingest_manifest(rt, doc, width).unwrap(), baseline, "width {width}");
    }
}
