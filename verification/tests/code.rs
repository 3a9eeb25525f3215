use narco::code::{
    code_from_entropy, code_from_random, generate, normalize, validate, validate_with, ALPHABET,
    GENERATED_LEN,
};
use narco::error::Error;
use narco::text::{control, white_space};

#[test]
fn generated_codes_are_valid_and_unique() {
    let a = generate().expect("OS CSPRNG unavailable");
    let b = generate().expect("OS CSPRNG unavailable");
    assert_eq!(a.chars().count(), GENERATED_LEN);
    assert_ne!(a, b, "two generated codes must not collide");
    validate(&a).expect("generated code must pass validation");
    assert!(a.bytes().all(|c| ALPHABET.contains(&c)));
}

#[test]
fn rejects_short_codes() {
    assert_eq!(validate("abc123def").unwrap_err(), Error::CodeTooShort);
    // Exactly at the boundary is allowed.
    validate("abc123defg").unwrap();
}

#[test]
fn rejects_repetitive_codes() {
    assert_eq!(
        validate("aaaaaaaaaaaa").unwrap_err(),
        Error::CodeTooRepetitive
    );
    assert_eq!(
        validate("ababababababab").unwrap_err(),
        Error::CodeTooRepetitive
    );
}

#[test]
fn rejects_sequences() {
    assert_eq!(validate("abcdefghijkl").unwrap_err(), Error::CodeSequential);
    assert_eq!(validate("zyxwvutsrqpo").unwrap_err(), Error::CodeSequential);
}

#[test]
fn rejects_weak_list_case_insensitively() {
    assert_eq!(validate("QwErTyUiOp").unwrap_err(), Error::CodeWeak);
}

#[test]
fn accepts_realistic_user_codes() {
    validate("13749832sfdbdjdv78394324").unwrap();
    validate("correct-horse-battery").unwrap();
}

#[test]
fn normalize_trims_but_preserves_case() {
    assert_eq!(normalize("  AbC123xyz9  "), "AbC123xyz9");
}

#[test]
fn normalize_makes_equivalent_unicode_agree() {
    // "é" precomposed vs. "e" + combining acute must derive the same key.
    let precomposed = normalize("caf\u{00e9}rocks12");
    let decomposed = normalize("cafe\u{0301}rocks12");
    assert_eq!(precomposed, decomposed);
}

#[test]
fn every_weak_code_is_rejected() {
    for weak in [
        "password12",
        "password123",
        "1234567890",
        "qwertyuiop",
        "letmeinnow",
        "narcotest1",
        "changeme12",
        "secretcode",
    ] {
        assert_eq!(validate(weak).unwrap_err(), Error::CodeWeak, "{weak}");
    }
    assert_eq!(validate("testtest12").unwrap_err(), Error::CodeTooRepetitive);
    assert_eq!(validate("abcdefghij").unwrap_err(), Error::CodeSequential);
    assert_eq!(validate("0123456789").unwrap_err(), Error::CodeSequential);
}

#[test]
fn the_lower_case_form_decides_weakness() {
    validate_with("QWERTYUIOP", "something else").unwrap();
    assert_eq!(
        validate_with("QWERTYUIOP", "qwertyuiop").unwrap_err(),
        Error::CodeWeak
    );
}

#[test]
fn a_break_in_a_run_makes_it_no_sequence() {
    validate("abcdefghik").unwrap();
    // Six distinct characters are enough, five are not.
    validate("abcdefffff").unwrap();
    assert_eq!(
        validate("abcdeeeeee").unwrap_err(),
        Error::CodeTooRepetitive
    );
}

#[test]
fn entropy_spells_the_code() {
    let mut entropy = [0u8; GENERATED_LEN];
    for (i, b) in entropy.iter_mut().enumerate() {
        *b = i as u8;
    }
    assert_eq!(code_from_entropy(&entropy), "ABCDEFGHJKLMNPQRSTUVWXYZ23");
    assert_eq!(
        code_from_entropy(&[31 + 32; GENERATED_LEN]),
        "99999999999999999999999999"
    );
}

#[test]
fn different_entropy_spells_different_codes() {
    let mut other = [0u8; GENERATED_LEN];
    other[7] = 1;
    assert_ne!(
        code_from_entropy(&[0u8; GENERATED_LEN]),
        code_from_entropy(&other)
    );
}

#[test]
fn normalizing_white_space_leaves_nothing() {
    assert_eq!(normalize(" \t\u{3000}\n"), "");
    assert_eq!(normalize(""), "");
}

#[test]
fn character_classes_agree_with_the_standard_library() {
    for n in 0..=0x10ffffu32 {
        if let Some(c) = char::from_u32(n) {
            assert_eq!(white_space(c), c.is_whitespace(), "{n:x}");
            assert_eq!(control(c), c.is_control(), "{n:x}");
        }
    }
}

#[test]
fn there_is_a_code_exactly_where_there_is_randomness() {
    assert_eq!(code_from_random(None), None);
    let mut entropy = [0u8; GENERATED_LEN];
    for (i, b) in entropy.iter_mut().enumerate() {
        *b = 255 - i as u8;
    }
    assert_eq!(
        code_from_random(Some(entropy)),
        Some(code_from_entropy(&entropy))
    );
    assert_eq!(
        code_from_random(Some([0u8; GENERATED_LEN])),
        Some((ALPHABET[0] as char).to_string().repeat(GENERATED_LEN))
    );
}

#[test]
fn normalizing_trims_composes_and_settles() {
    assert_eq!(normalize("  AbC123xyz9  "), "AbC123xyz9");
    assert_eq!(normalize("\u{2000}\t \n"), "");
    // Canonically equivalent texts agree.
    assert_eq!(
        normalize("cafe\u{0301}rocks12"),
        normalize("caf\u{00e9}rocks12")
    );
    for x in [
        "cafe\u{0301} rocks12",
        " \u{0301}x\u{2000}y ",
        "\u{1100}\u{1161}\u{11a8}",
        "q\u{0307}\u{0323}",
    ] {
        let once = normalize(x);
        assert_eq!(normalize(&once), once);
        assert_eq!(once.trim(), once);
        assert_eq!(normalize(&format!("\u{3000}\n{x}\u{2001} ")), once);
    }
}
