use mncs_ingest::csv::{parse_fields, CsvReader};
use mncs_ingest::language::LanguageRuntime;
use mncs_ingest::IngestError;

fn rt() -> &'static LanguageRuntime {
    &LanguageRuntime
}

#[test]
fn line_step_produces_the_first_line_and_carries_the_rest() {
    let out = rt().next_line(b"ab", b"c\nde", false).unwrap();
    assert_eq!(out.status, 0);
    assert_eq!(out.line, b"abc");
    assert_eq!(out.line_len, 3);
    assert_eq!(out.carry, b"de");
    assert_eq!(out.carry_len, 2);
    assert_eq!(out.consumed, 4);
}

#[test]
fn line_step_strips_one_trailing_carriage_return() {
    let out = rt().next_line(b"", b"a,b\r\nc", false).unwrap();
    assert_eq!(out.status, 0);
    assert_eq!(out.line, b"a,b");
    assert_eq!(out.carry, b"c");
}

#[test]
fn line_step_waits_without_a_newline() {
    let out = rt().next_line(b"ab", b"cd", false).unwrap();
    assert_eq!(out.status, 1);
    assert!(out.line.is_empty());
    assert_eq!(out.carry, b"abcd");
    assert_eq!(out.consumed, 2);
}

#[test]
fn line_step_refuses_an_unterminated_run_beyond_the_carry() {
    let carry = vec![b'x'; 200];
    let view = vec![b'y'; 57];
    let out = rt().next_line(&carry, &view, false).unwrap();
    assert_eq!(out.status, 4);
    assert_eq!(out.carry, carry);
    assert_eq!(out.consumed, 0);
    let view = vec![b'y'; 56];
    assert_eq!(rt().next_line(&carry, &view, false).unwrap().status, 1);
}

#[test]
fn line_step_rewinds_when_the_tail_exceeds_the_carry() {
    let mut view = b"x\n".to_vec();
    view.extend(vec![b'y'; 300]);
    let out = rt().next_line(b"", &view, false).unwrap();
    assert_eq!(out.status, 0);
    assert_eq!(out.line, b"x");
    assert_eq!(out.carry.len(), 256);
    assert_eq!(out.consumed, 2 + 256);
}

#[test]
fn line_step_at_end_of_input() {
    assert_eq!(rt().next_line(b"", b"", true).unwrap().status, 2);
    let tail = rt().next_line(b"a,b", b"", true).unwrap();
    assert_eq!(tail.status, 0);
    assert_eq!(tail.line, b"a,b");
    assert!(tail.carry.is_empty());
    assert_eq!(rt().next_line(b"a,b\r", b"", true).unwrap().status, 3);
    assert_eq!(rt().next_line(b"a\rb\n", b"", false).unwrap().status, 3);
}

#[test]
fn field_step_statuses() {
    let rt = rt();
    let first = rt.field_at(b"a\\,b,c", 0).unwrap();
    assert_eq!(first.status, 0);
    assert_eq!(first.value, b"a,b");
    assert_eq!(first.value_len, 3);
    assert_eq!(first.next_start, 5);
    assert!(first.has_more);
    let last = rt.field_at(b"a\\,b,c", 5).unwrap();
    assert_eq!(last.value, b"c");
    assert_eq!(last.next_start, 6);
    assert!(!last.has_more);
    assert_eq!(rt.field_at(b"", 0).unwrap().status, 1);
    assert_eq!(rt.field_at(b"ab", 3).unwrap().status, 1);
    let bad = rt.field_at(b"ab\\", 0).unwrap();
    assert_eq!(bad.status, 2);
    assert_eq!(bad.next_start, 2);
    assert_eq!(rt.field_at(b"a\x02", 0).unwrap().status, 2);
    let long = vec![b'q'; 64];
    let over = rt.field_at(&long, 0).unwrap();
    assert_eq!(over.status, 3);
    assert_eq!(over.next_start, 63);
}

#[test]
fn empty_final_field_after_a_comma() {
    let fields = parse_fields(rt(), b"a,", 1).unwrap();
    assert_eq!(fields, [b"a".to_vec(), Vec::new()]);
}

#[test]
fn csv_errors_name_the_line() {
    let rt = rt();
    let mut reader = CsvReader::new();
    let error = reader.feed(rt, b"ok\nx,\x01\n").unwrap_err();
    assert_eq!(
        error,
        IngestError::Malformed {
            adapter: "csv".to_owned(),
            detail: "line 2: malformed field escape or control byte".to_owned(),
        }
    );
    let mut reader = CsvReader::new();
    let error = reader.feed(rt, b"1,2,3,4,5,6,7,8,9\n").unwrap_err();
    assert_eq!(
        error,
        IngestError::Malformed {
            adapter: "csv".to_owned(),
            detail: "line 1: more than 8 fields".to_owned(),
        }
    );
    let long = format!("{}\n", "z".repeat(64));
    let mut reader = CsvReader::new();
    assert_eq!(
        reader.feed(rt, long.as_bytes()).unwrap_err(),
        IngestError::Overlong {
            adapter: "csv".to_owned(),
            detail: "line 1: field exceeds 63 bytes".to_owned(),
        }
    );
    let mut reader = CsvReader::new();
    assert_eq!(
        reader.feed(rt, b"a\rb\n").unwrap_err(),
        IngestError::Malformed { adapter: "csv".to_owned(), detail: "line 1: malformed bytes".to_owned() }
    );
    let mut reader = CsvReader::new();
    let wide = vec![b'w'; 300];
    assert_eq!(
        reader.feed(rt, &wide).unwrap_err(),
        IngestError::Overlong {
            adapter: "csv".to_owned(),
            detail: "line 1: line exceeds 255 bytes".to_owned(),
        }
    );
}

#[test]
fn record_positions_skip_terminators() {
    let rt = rt();
    let mut reader = CsvReader::new();
    let mut records = reader.feed(rt, b"ab\r\ncd\n").unwrap();
    records.extend(reader.feed(rt, b"ef").unwrap());
    records.extend(reader.finish(rt).unwrap());
    let spans: Vec<(u64, u64, u64)> =
        records.iter().map(|r| (r.line_no, r.byte_start, r.byte_end)).collect();
    assert_eq!(spans, [(1, 0, 2), (2, 4, 6), (3, 7, 9)]);
}

#[test]
fn finish_reports_a_bad_tail() {
    let rt = rt();
    let mut reader = CsvReader::new();
    assert!(reader.feed(rt, b"a\\").unwrap().is_empty());
    assert_eq!(
        reader.finish(rt).unwrap_err(),
        IngestError::Malformed {
            adapter: "csv".to_owned(),
            detail: "line 1: malformed field escape or control byte".to_owned(),
        }
    );
}

#[test]
fn split_feeding_reads_what_one_feed_reads() {
    let rt = rt();
    let input = b"a,b\nc\\,d,e\r\nf\n";
    let mut whole = CsvReader::new();
    let mut expect = whole.feed(rt, input).unwrap();
    expect.extend(whole.finish(rt).unwrap());
    for split in 0..=input.len() {
        let mut reader = CsvReader::new();
        let mut got = reader.feed(rt, &input[..split]).unwrap();
        got.extend(reader.feed(rt, &input[split..]).unwrap());
        got.extend(reader.finish(rt).unwrap());
        assert_eq!(got, expect, "split at {split}");
    }
}

#[test]
fn a_written_record_reads_back() {
    let rt = rt();
    let fields: Vec<Vec<u8>> = vec![b"x,y".to_vec(), b"back\\slash".to_vec(), Vec::new(), b"\tt".to_vec()];
    let mut line = Vec::new();
    for (index, field) in fields.iter().enumerate() {
        if index > 0 {
            line.push(b',');
        }
        for byte in field {
            if *byte == b',' || *byte == b'\\' {
                line.push(b'\\');
            }
            line.push(*byte);
        }
    }
    line.push(b'\n');
    let mut reader = CsvReader::new();
    let records = reader.feed(rt, &line).unwrap();
    assert_eq!(records.len(), 1);
    assert_eq!(records[0].fields, fields);
    assert_eq!(records[0].byte_end, line.len() as u64 - 1);
}
