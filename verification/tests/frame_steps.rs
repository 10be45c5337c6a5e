use mncs_ingest::frames::{encode_frame, FrameReader};
use mncs_ingest::language::LanguageRuntime;
use mncs_ingest::IngestError;

fn rt() -> &'static LanguageRuntime {
    &LanguageRuntime
}

#[test]
fn encoding_is_exact() {
    // 0x43 + 0x4D + 1 + 2 + 2 + 0 + 0x61 + 0x62 = 344 = 0x0158.
    assert_eq!(
        encode_frame(1, 2, b"ab"),
        [0x43, 0x4D, 1, 2, 2, 0, 0x61, 0x62, 0x58, 0x01]
    );
    assert_eq!(encode_frame(1, 0, b"").len(), 8);
}

#[test]
fn frame_step_produces_and_carries() {
    let mut input = encode_frame(1, 1, b"xyz");
    input.extend_from_slice(&[0x43, 0x4D]);
    let out = rt().decode_frame(b"", &input, false).unwrap();
    assert_eq!(out.status, 0);
    assert_eq!(out.version, 1);
    assert_eq!(out.kind, 1);
    assert_eq!(out.payload, b"xyz");
    assert_eq!(out.payload_len, 3);
    assert_eq!(out.frame_len, 11);
    assert_eq!(out.carry, [0x43, 0x4D]);
    assert_eq!(out.consumed, input.len());
}

#[test]
fn frame_step_waits_then_truncates() {
    let frame = encode_frame(1, 0, b"payload");
    let waiting = rt().decode_frame(&frame[..4], &frame[4..9], false).unwrap();
    assert_eq!(waiting.status, 1);
    assert_eq!(waiting.carry, &frame[..9]);
    assert_eq!(waiting.consumed, 5);
    let truncated = rt().decode_frame(&frame[..9], b"", true).unwrap();
    assert_eq!(truncated.status, 5);
    assert_eq!(rt().decode_frame(b"", b"", true).unwrap().status, 2);
}

#[test]
fn frame_step_refusals() {
    let rt = rt();
    let mut bad_magic = encode_frame(1, 0, b"d");
    bad_magic[1] = 0;
    assert_eq!(rt.decode_frame(b"", &bad_magic, false).unwrap().status, 3);
    assert_eq!(rt.decode_frame(b"", &encode_frame(3, 0, b"d"), false).unwrap().status, 6);
    assert_eq!(rt.decode_frame(b"", &encode_frame(1, 3, b"d"), false).unwrap().status, 7);
    let mut bad_sum = encode_frame(1, 0, b"d");
    bad_sum[7] ^= 1;
    assert_eq!(rt.decode_frame(b"", &bad_sum, false).unwrap().status, 4);
    let oversize = [0x43, 0x4D, 1, 0, 129, 0];
    assert_eq!(rt.decode_frame(b"", &oversize, false).unwrap().status, 3);
}

#[test]
fn frame_errors_carry_their_details() {
    let rt = rt();
    let mut reader = FrameReader::new();
    assert_eq!(
        reader.feed(rt, &encode_frame(2, 0, b"")).unwrap_err(),
        IngestError::Unsupported {
            adapter: "frame".to_owned(),
            detail: "unsupported frame version".to_owned(),
        }
    );
    let mut reader = FrameReader::new();
    assert_eq!(
        reader.feed(rt, &encode_frame(1, 5, b"")).unwrap_err(),
        IngestError::Unsupported { adapter: "frame".to_owned(), detail: "unknown frame kind tag".to_owned() }
    );
    let mut reader = FrameReader::new();
    let mut bad = encode_frame(1, 0, b"q");
    bad[6] ^= 0x10;
    assert_eq!(
        reader.feed(rt, &bad).unwrap_err(),
        IngestError::Malformed { adapter: "frame".to_owned(), detail: "checksum mismatch".to_owned() }
    );
    let mut reader = FrameReader::new();
    assert!(reader.feed(rt, &[0x43]).unwrap().is_empty());
    assert_eq!(
        reader.finish(rt).unwrap_err(),
        IngestError::Malformed {
            adapter: "frame".to_owned(),
            detail: "truncated frame at end of input".to_owned(),
        }
    );
}

#[test]
fn many_small_frames_in_one_view_all_arrive() {
    let rt = rt();
    let mut input = Vec::new();
    for index in 0..30u8 {
        input.extend_from_slice(&encode_frame(1, index % 3, &[index]));
    }
    assert!(input.len() > 256);
    let mut reader = FrameReader::new();
    let mut frames = reader.feed(rt, &input).unwrap();
    frames.extend(reader.finish(rt).unwrap());
    assert_eq!(frames.len(), 30);
    for (index, frame) in frames.iter().enumerate() {
        assert_eq!(frame.payload, [index as u8]);
        assert_eq!(frame.byte_start, 9 * index as u64);
        assert_eq!(frame.byte_end, 9 * index as u64 + 9);
    }
}

#[test]
fn encoded_frames_decode_back_whatever_follows() {
    let rt = rt();
    let payload: Vec<u8> = (0..128u8).collect();
    let mut input = encode_frame(1, 2, &payload);
    input.extend_from_slice(&encode_frame(1, 0, b"next"));
    let mut reader = FrameReader::new();
    let frames = reader.feed(rt, &input).unwrap();
    assert_eq!(frames.len(), 2);
    assert_eq!(frames[0].payload, payload);
    assert_eq!(frames[0].kind, 2);
    assert_eq!(frames[1].payload, b"next");
    assert!(reader.finish(rt).unwrap().is_empty());
}
