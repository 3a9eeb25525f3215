use narco::frame::MAX_PLAINTEXT;
use narco::message::{
    decode, encode_file_chunk, encode_text, sanitize_filename, Incoming, CHUNK, KIND_FILE,
    KIND_TEXT, MAX_CHUNKS, MAX_FILENAME, MAX_NAME,
};

#[test]
fn message_text_round_trips() {
    let raw = encode_text("alice", "hello");
    assert_eq!(
        decode(&raw),
        Some(Incoming::Text {
            from: "alice".into(),
            text: "hello".into()
        })
    );
}

#[test]
fn message_an_unnamed_sender_is_fine() {
    let raw = encode_text("", "anon");
    match decode(&raw).unwrap() {
        Incoming::Text { from, text } => {
            assert_eq!(from, "");
            assert_eq!(text, "anon");
        }
        other => panic!("expected text, got {other:?}"),
    }
}

#[test]
fn message_a_file_chunk_round_trips() {
    let data = vec![7u8; 1000];
    let raw = encode_file_chunk("bob", 42, 3, 10, "cat.jpg", &data);
    assert_eq!(
        decode(&raw),
        Some(Incoming::File {
            from: "bob".into(),
            id: 42,
            index: 3,
            total: 10,
            name: "cat.jpg".into(),
            data,
        })
    );
}

/// A full-size chunk plus its header must still fit in one message, or a
/// transfer would fail only on large files.
#[test]
fn message_a_full_chunk_fits_in_one_message() {
    let raw = encode_file_chunk(
        &"n".repeat(64),
        1,
        0,
        1,
        &"f".repeat(255),
        &vec![0u8; CHUNK],
    );
    assert!(raw.len() <= MAX_PLAINTEXT, "{} bytes", raw.len());
}

#[test]
fn message_truncated_input_is_refused_rather_than_panicking() {
    let raw = encode_file_chunk("bob", 1, 0, 2, "x.bin", &[1, 2, 3]);
    for cut in 0..raw.len() {
        // Must not panic at any truncation point.
        let _ = decode(&raw[..cut]);
    }
    assert_eq!(decode(&[]), None);
    assert_eq!(decode(&[KIND_FILE]), None);
}

#[test]
fn message_a_nonsense_piece_count_is_refused() {
    let bad = encode_file_chunk("b", 1, 5, 5, "x", &[1]); // index == total
    assert_eq!(decode(&bad), None);
    let none = encode_file_chunk("b", 1, 0, 0, "x", &[1]);
    assert_eq!(decode(&none), None);
}

#[test]
fn message_an_unknown_kind_is_refused() {
    assert_eq!(decode(&[99, 0]), None);
}

/// Build a file chunk field by field, so a test can claim things the encoder
/// would never claim.
fn raw_chunk(from: &[u8], id: u64, index: u32, total: u32, name: &[u8], data: &[u8]) -> Vec<u8> {
    let mut v = vec![KIND_FILE, from.len() as u8];
    v.extend_from_slice(from);
    v.extend_from_slice(&id.to_be_bytes());
    v.extend_from_slice(&index.to_be_bytes());
    v.extend_from_slice(&total.to_be_bytes());
    v.extend_from_slice(&(name.len() as u16).to_be_bytes());
    v.extend_from_slice(name);
    v.extend_from_slice(data);
    v
}

/// The receiver reserves room for every piece a sender says is coming, so
/// `total` is an allocation the peer gets to choose.
#[test]
fn an_absurd_piece_count_is_refused() {
    assert!(decode(&raw_chunk(b"", 1, 0, MAX_CHUNKS, b"a", b"x")).is_some());
    assert_eq!(
        decode(&raw_chunk(b"", 1, 0, MAX_CHUNKS + 1, b"a", b"x")),
        None
    );
    assert_eq!(decode(&raw_chunk(b"", 1, 0, 100_000, b"a", b"x")), None);
}

#[test]
fn a_piece_larger_than_chunk_is_refused() {
    let ok = vec![7u8; CHUNK];
    assert!(decode(&raw_chunk(b"", 1, 0, 2, b"a", &ok)).is_some());
    let too_big = vec![7u8; CHUNK + 1];
    assert_eq!(decode(&raw_chunk(b"", 1, 0, 2, b"a", &too_big)), None);
}

#[test]
fn oversized_names_are_refused_on_the_way_in() {
    // The encoder's limits bound nothing: the peer runs their own.
    let long_from = vec![b'a'; MAX_NAME + 1];
    assert_eq!(decode(&raw_chunk(&long_from, 1, 0, 2, b"a", b"x")), None);
    let long_name = vec![b'a'; MAX_FILENAME + 1];
    assert_eq!(decode(&raw_chunk(b"", 1, 0, 2, &long_name, b"x")), None);
}

#[test]
fn a_filename_cannot_lie_about_its_extension() {
    // Reads as `holidayexe.png` on screen; saves as a `.exe`.
    let got = sanitize_filename("holiday\u{202E}gnp.exe");
    assert!(!got.contains('\u{202E}'), "bidi override survived: {got:?}");
    assert!(
        got.ends_with(".exe"),
        "the real extension should stay visible"
    );
}

#[test]
fn a_filename_cannot_escape_its_directory() {
    assert_eq!(
        sanitize_filename("../../.ssh/authorized_keys"),
        "_.._.ssh_authorized_keys"
    );
    assert_eq!(
        sanitize_filename("..\\..\\Startup\\a.exe"),
        "_.._Startup_a.exe"
    );
    assert_eq!(sanitize_filename("..."), "file");
    assert_eq!(sanitize_filename(""), "file");
    assert_eq!(sanitize_filename("  .hidden  "), "hidden");
    assert_eq!(sanitize_filename("a\0b\nc.png"), "a_b_c.png");
}

/// Splitting a character at the limit would produce invalid UTF-8, and the
/// receiver treats a message it cannot decode as fatal.
#[test]
fn a_long_name_in_any_script_still_round_trips() {
    for name in [
        "e".repeat(300),
        "😀".repeat(80),     // 4 bytes each
        "日本語".repeat(90), // 3 bytes each
        "ñ".repeat(200),     // 2 bytes each
    ] {
        let raw = encode_file_chunk("", 1, 0, 2, &name, b"x");
        let got = decode(&raw);
        assert!(got.is_some(), "a {} byte name did not survive", name.len());
        match got.unwrap() {
            Incoming::File { name, .. } => assert!(!name.is_empty()),
            other => panic!("expected a file, got {other:?}"),
        }
    }
}

#[test]
fn a_sender_name_cannot_rewrite_the_line_it_is_on() {
    let raw = raw_chunk("a\u{202E}b".as_bytes(), 1, 0, 2, b"x.png", b"x");
    match decode(&raw).expect("should decode") {
        Incoming::File { from, .. } => assert_eq!(from, "ab"),
        other => panic!("expected a file, got {other:?}"),
    }
}

#[test]
fn no_filename_names_a_parent_directory() {
    for name in ["..", ". ..", " . . . ", ".\u{a0}..", "../..", ". .x"] {
        let got = sanitize_filename(name);
        assert!(!got.starts_with('.'), "{name:?} became {got:?}");
        assert!(!got.is_empty());
    }
    assert_eq!(sanitize_filename(". .x"), "x");
}

#[test]
fn names_are_cut_between_characters() {
    // 63 bytes and a character of two: the character goes.
    let name = format!("{}é!", "a".repeat(63));
    match decode(&encode_text(&name, "t")).unwrap() {
        Incoming::Text { from, .. } => assert_eq!(from, "a".repeat(63)),
        other => panic!("expected text, got {other:?}"),
    }
    match decode(&encode_file_chunk("", 1, 0, 1, &"日".repeat(86), &[1])).unwrap() {
        Incoming::File { name, .. } => assert_eq!(name, "日".repeat(85)),
        other => panic!("expected a file, got {other:?}"),
    }
    assert_eq!(sanitize_filename(&"ñ".repeat(200)), "ñ".repeat(127));
}

#[test]
fn messages_are_laid_out_as_documented() {
    assert_eq!(
        encode_text("al", "hé"),
        vec![KIND_TEXT, 2, b'a', b'l', b'h', 0xc3, 0xa9]
    );
    assert_eq!(
        encode_file_chunk("b", 258, 3, 10, "x", &[9]),
        raw_chunk(b"b", 258, 3, 10, b"x", &[9])
    );
}

#[test]
fn text_that_is_no_utf8_is_refused() {
    assert_eq!(decode(&[KIND_TEXT, 0, 0xff]), None);
    assert_eq!(decode(&[KIND_TEXT, 1, 0xff, b'a']), None);
    assert_eq!(decode(&raw_chunk(b"", 1, 0, 2, &[0xc3], b"x")), None);
    // A surrogate and an overlong encoding are no characters either.
    assert_eq!(decode(&[KIND_TEXT, 0, 0xed, 0xa0, 0x80]), None);
    assert_eq!(decode(&[KIND_TEXT, 0, 0xc0, 0x80]), None);
}

#[test]
fn texts_are_cut_between_characters() {
    let chars: Vec<char> = "aé€😀".chars().collect();
    for (max, n) in [
        (0, 0),
        (1, 1),
        (2, 1),
        (3, 2),
        (5, 2),
        (6, 3),
        (9, 3),
        (10, 4),
        (usize::MAX, 4),
    ] {
        assert_eq!(narco::text::truncate(&chars, max), &chars[..n], "{max}");
    }
}
