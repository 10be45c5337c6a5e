use mncs_ingest::language::LanguageRuntime;

fn rt() -> &'static LanguageRuntime {
    &LanguageRuntime
}

#[test]
fn parse_executes_with_exact_spans() {
    let rt = rt();
    let parse = rt.parse_transfer(b"Alexander gave Finn 3 apples.").unwrap();
    assert_eq!(parse.status, 0);
    assert_eq!(parse.verb, 1);
    assert_eq!(parse.source, Some((0, 9)));
    assert_eq!(parse.target, Some((15, 4)));
    assert_eq!(parse.object_code, 1);
    assert_eq!(parse.object, Some((22, 6)));
    assert_eq!(parse.quantity_present, true);
    assert_eq!(parse.quantity, 3);
    assert_eq!(parse.quantity_span, Some((20, 1)));

    let passive = rt
        .parse_transfer(b"Finn received three apples from Alexander.")
        .unwrap();
    assert_eq!(passive.status, 0);
    assert_eq!(passive.verb, 2);
    assert_eq!(passive.source, Some((32, 9)));
    assert_eq!(passive.target, Some((0, 4)));
    assert_eq!(passive.object_code, 1);
    assert_eq!(passive.quantity, 3);
}

#[test]
fn statuses_execute_for_each_failure_mode() {
    let rt = rt();
    assert_eq!(rt.parse_transfer(b"Alexander hugged Finn 3 apples.").unwrap().status, 1);
    assert_eq!(rt.parse_transfer(b"Alexander gave Finn.").unwrap().status, 2);
    assert_eq!(rt.parse_transfer(b"Alexander gave Finn 3x apples.").unwrap().status, 3);
    assert_eq!(rt.parse_transfer(b"Alexander gave Finn Bob 3 apples.").unwrap().status, 4);
    assert_eq!(rt.parse_transfer(b"").unwrap().status, 5);
}

#[test]
fn ordering_primitives_execute() {
    let rt = rt();
    assert_eq!(rt.sort_codes(&[3, 1, 2]).unwrap(), [3 - 2, 3 - 1, 3]);
    assert_eq!(rt.sort_codes(&[]).unwrap(), Vec::<u64>::new());
    assert_eq!(rt.sort_codes(&[2, 2, 1]).unwrap(), [1, 2, 2]);
    assert!(rt.is_sorted(&[1, 2, 3]).unwrap());
    assert!(!rt.is_sorted(&[2, 1, 3]).unwrap());
}

#[test]
fn sort_codes_refuses_more_than_eight_codes() {
    let rt = rt();
    assert!(rt.sort_codes(&[9, 8, 7, 6, 5, 4, 3, 2]).is_ok());
    assert!(matches!(
        rt.sort_codes(&[9, 8, 7, 6, 5, 4, 3, 2, 1]),
        Err(mncs_ingest::IngestError::Language(_))
    ));
}

#[test]
fn validation_and_equality_verdicts() {
    let rt = rt();
    assert!(rt.spell_equal(b"apple", b"apple").unwrap());
    assert!(!rt.spell_equal(b"Apples", b"apple").unwrap());
    assert_eq!(rt.classify_event(b"RECEIVED").unwrap(), 1);
    assert_eq!(rt.classify_object(b"Orange").unwrap(), 2);
}

#[test]
fn overlong_text_is_refused_by_the_parser() {
    let rt = rt();
    let input = [b'a'; 65];
    assert!(matches!(
        rt.parse_transfer(&input),
        Err(mncs_ingest::IngestError::Overlong { .. })
    ));
}
