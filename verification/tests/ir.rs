use mncs_ingest::ir::{
    AdapterKind, Atom, AtomKind, Confidence, Fragment, Provenance, FRAGMENT_SCHEMA_VERSION,
};

fn fragment() -> Fragment {
    Fragment {
        schema: FRAGMENT_SCHEMA_VERSION.to_owned(),
        atoms: vec![Atom {
            id: 0,
            kind: AtomKind::Entity,
            label: "Alexander".to_owned(),
            value: None,
        }],
        relations: vec![],
        unknowns: vec![],
        provenance: Provenance {
            adapter: AdapterKind::Text,
            signal_id: "00".to_owned(),
            interpreter: "test".to_owned(),
            spans: vec![],
            confidence: Confidence::Parsed,
        },
    }
}

#[test]
fn semantic_key_ignores_provenance_and_ids() {
    let mut a = fragment();
    let mut b = fragment();
    b.atoms[0].id = 99;
    b.provenance.adapter = AdapterKind::Native;
    b.provenance.signal_id = "ff".to_owned();
    assert!(a.semantically_equal(&b));
    a.atoms[0].label = "Finn".to_owned();
    assert!(!a.semantically_equal(&b));
}

#[test]
fn zero_quantity_differs_from_missing_quantity() {
    let mut a = fragment();
    let mut b = fragment();
    a.atoms.push(Atom {
        id: 1,
        kind: AtomKind::Quantity,
        label: "0".to_owned(),
        value: Some(0),
    });
    b.atoms.push(Atom {
        id: 1,
        kind: AtomKind::Quantity,
        label: "-".to_owned(),
        value: None,
    });
    assert!(!a.semantically_equal(&b));
}

#[test]
fn semantic_key_renders_atoms_relations_and_unknowns() {
    let mut a = fragment();
    a.unknowns.push("object:unknown:parsnip".to_owned());
    let key = a.semantic_key();
    assert_eq!(
        key,
        "frag:v1\natom Entity Alexander -\nunknown object:unknown:parsnip"
    );
}

#[test]
fn semantic_equality_is_reflexive_and_symmetric_on_examples() {
    let a = fragment();
    let mut b = fragment();
    b.provenance.interpreter = "other".to_owned();
    assert!(a.semantically_equal(&a));
    assert_eq!(a.semantically_equal(&b), b.semantically_equal(&a));
}

#[test]
fn canonical_bytes_are_the_semantic_key() {
    let a = fragment();
    let expected = format!("{}\n{}", FRAGMENT_SCHEMA_VERSION, a.semantic_key());
    assert_eq!(a.canonical_bytes(), expected.into_bytes());
}

#[test]
fn kind_names_render() {
    assert_eq!(AdapterKind::Text.as_str(), "text");
    assert_eq!(AdapterKind::Structured.as_str(), "structured");
    assert_eq!(AdapterKind::Native.as_str(), "native");
    assert_eq!(mncs_ingest::ir::Role::Quantity.as_str(), "quantity");
}

#[test]
fn escaping_keeps_keys_apart() {
    // A space is escaped as `\s`, and a backslash is doubled, so a label
    // holding a space and one holding a literal `\s` keep distinct keys.
    let mut a = fragment();
    let mut b = fragment();
    a.unknowns.push("x y".to_owned());
    b.unknowns.push("x\\sy".to_owned());
    assert_eq!(a.semantic_key(), "frag:v1\natom Entity Alexander -\nunknown x\\sy");
    assert_eq!(b.semantic_key(), "frag:v1\natom Entity Alexander -\nunknown x\\\\sy");
    assert_ne!(a.semantic_key(), b.semantic_key());
    let mut c = fragment();
    let mut d = fragment();
    c.atoms[0].label = "a\nunknown b".to_owned();
    d.atoms[0].label = "a".to_owned();
    d.unknowns.push("b".to_owned());
    assert_ne!(c.semantic_key(), d.semantic_key());
    assert!(!c.semantically_equal(&d));
}

#[test]
fn equal_keys_mean_equal_content() {
    let mut a = fragment();
    let mut b = fragment();
    a.atoms[0].id = 7;
    b.schema = "other-schema".to_owned();
    assert_eq!(a.semantic_key(), b.semantic_key());
    assert_eq!(a.atoms[0].kind, b.atoms[0].kind);
    assert_eq!(a.atoms[0].label, b.atoms[0].label);
    assert_eq!(a.atoms[0].value, b.atoms[0].value);
    assert!(!a.semantically_equal(&b));
}

#[test]
fn canonical_bytes_separate_schemas_holding_newlines() {
    let mut a = fragment();
    let mut b = fragment();
    a.schema = "s".to_owned();
    b.schema = "s\nfrag:v1".to_owned();
    b.atoms.clear();
    assert_ne!(a.canonical_bytes(), b.canonical_bytes());
    assert!(!a.semantically_equal(&b));
    let c = fragment();
    let mut d = fragment();
    d.provenance.signal_id = "ab".to_owned();
    assert_eq!(c.canonical_bytes(), d.canonical_bytes());
    assert!(c.semantically_equal(&d));
}
