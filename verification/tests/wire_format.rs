use narco::frame::MAX_PLAINTEXT;
use narco::wire_format::{decode, encode_file_chunk, encode_text, Incoming, CHUNK, KIND_FILE};

#[test]
fn wire_format_text_round_trips() {
    let raw = encode_text("alice", "hello");
    assert_eq!(
        decode(&raw),
        Some(Incoming::Text {
            from: "alice".into(),
            text: "hello".into()
        })
    );
}

#[test]
fn wire_format_an_unnamed_sender_is_fine() {
    let raw = encode_text("", "anon");
    match decode(&raw).unwrap() {
        Incoming::Text { from, text } => {
            assert_eq!(from, "");
            assert_eq!(text, "anon");
        }
        other => panic!("expected text, got {other:?}"),
    }
}

#[test]
fn wire_format_a_file_chunk_round_trips() {
    let data = vec![7u8; 1000];
    let raw = encode_file_chunk("bob", 42, 3, 10, "cat.jpg", &data);
    assert_eq!(
        decode(&raw),
        Some(Incoming::File {
            from: "bob".into(),
            id: 42,
            index: 3,
            total: 10,
            name: "cat.jpg".into(),
            data,
        })
    );
}

/// A full-size chunk plus its header must still fit in one message, or a
/// transfer would fail only on large files.
#[test]
fn wire_format_a_full_chunk_fits_in_one_message() {
    let raw = encode_file_chunk(
        &"n".repeat(64),
        1,
        0,
        1,
        &"f".repeat(255),
        &vec![0u8; CHUNK],
    );
    assert!(raw.len() <= MAX_PLAINTEXT, "{} bytes", raw.len());
}

#[test]
fn wire_format_truncated_input_is_refused_rather_than_panicking() {
    let raw = encode_file_chunk("bob", 1, 0, 2, "x.bin", &[1, 2, 3]);
    for cut in 0..raw.len() {
        // Must not panic at any truncation point.
        let _ = decode(&raw[..cut]);
    }
    assert_eq!(decode(&[]), None);
    assert_eq!(decode(&[KIND_FILE]), None);
}

#[test]
fn wire_format_a_nonsense_piece_count_is_refused() {
    let bad = encode_file_chunk("b", 1, 5, 5, "x", &[1]); // index == total
    assert_eq!(decode(&bad), None);
    let none = encode_file_chunk("b", 1, 0, 0, "x", &[1]);
    assert_eq!(decode(&none), None);
}

#[test]
fn wire_format_an_unknown_kind_is_refused() {
    assert_eq!(decode(&[99, 0]), None);
}

#[test]
fn wire_format_takes_names_as_they_come() {
    match decode(&encode_file_chunk("a\u{202E}b", 1, 0, 100_000, "../x", &[1])).unwrap() {
        Incoming::File { from, name, .. } => {
            assert_eq!(from, "a\u{202E}b");
            assert_eq!(name, "../x");
        }
        other => panic!("expected a file, got {other:?}"),
    }
    assert_eq!(
        decode(&encode_file_chunk("", 1, 0, 100_001, "x", &[1])),
        None
    );
}

#[test]
fn wire_format_cuts_a_filename_at_a_byte() {
    // 255 is odd, so the last character of two bytes is split.
    assert_eq!(
        decode(&encode_file_chunk("", 1, 0, 1, &"ñ".repeat(200), &[1])),
        None
    );
    match decode(&encode_file_chunk("", 1, 0, 1, &"e".repeat(300), &[1])).unwrap() {
        Incoming::File { name, .. } => assert_eq!(name, "e".repeat(255)),
        other => panic!("expected a file, got {other:?}"),
    }
}
