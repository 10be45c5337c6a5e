use mncs_ingest::adapters::{Adapter, TextAdapter};
use mncs_ingest::canonical::signal_id;
use mncs_ingest::envelope::{canonical_record_bytes, seal, source_id_of, ENVELOPE_SCHEMA};
use mncs_ingest::language::LanguageRuntime;
use mncs_ingest::IngestError;

fn rt() -> &'static LanguageRuntime {
    &LanguageRuntime
}

#[test]
fn record_bytes_join_with_the_unit_separator() {
    assert_eq!(
        canonical_record_bytes(&[b"a".to_vec(), b"".to_vec(), b"bc".to_vec()]),
        [b'a', 0x1f, 0x1f, b'b', b'c']
    );
    assert!(canonical_record_bytes(&[]).is_empty());
}

#[test]
fn source_ids_are_sha256_hex() {
    assert_eq!(
        source_id_of(b"abc"),
        "ba7816bf8f01cfea414140de5dae2223b00361a396177a9cb410ff61f20015ad"
    );
    assert_eq!(signal_id(b"abc"), source_id_of(b"abc"));
}

#[test]
fn sealing_keeps_meaning_and_source_apart() {
    let rt = rt();
    let a = TextAdapter.ingest(&rt, "Alexander gave Finn 3 apples.").unwrap();
    let b = TextAdapter.ingest(&rt, "Finn received three apples from Alexander.").unwrap();
    let record = canonical_record_bytes(&[b"transfer".to_vec(), b"Alexander".to_vec()]);
    let first = seal(rt, &record, b"raw one", a.fragment.provenance.clone()).unwrap();
    let second = seal(rt, &record, b"raw two", b.fragment.provenance.clone()).unwrap();
    assert_eq!(first.schema, ENVELOPE_SCHEMA);
    assert_eq!(first.normalized_digest, second.normalized_digest);
    assert_ne!(first.source_id, second.source_id);
    assert_ne!(first.provenance, second.provenance);
    assert_eq!(first.digest_hex().len(), 64);
    assert_eq!(first.source_id, source_id_of(b"raw one"));
}

#[test]
fn digest_of_a_known_record() {
    let env = seal(rt(), b"abc", b"", TextAdapter.ingest(&rt(), "Alexander gave Finn apples.").unwrap().fragment.provenance).unwrap();
    assert_eq!(
        env.digest_hex(),
        "ba7816bf8f01cfea414140de5dae2223b00361a396177a9cb410ff61f20015ad"
    );
}

#[test]
fn overlong_records_are_refused() {
    let rt = rt();
    let record = vec![b'r'; 257];
    let provenance = TextAdapter.ingest(&rt, "Alexander gave Finn apples.").unwrap().fragment.provenance;
    assert_eq!(
        seal(rt, &record, b"raw", provenance).unwrap_err(),
        IngestError::Overlong {
            adapter: "envelope".to_owned(),
            detail: "canonical record exceeds 256 bytes".to_owned(),
        }
    );
    assert!(rt.digest_record(&[b'r'; 256]).is_ok());
}
