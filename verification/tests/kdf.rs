use narco::error::Error;
use narco::kdf::{
    derive_multi, derive_with_passphrase, encode_secrets, is_valid_room_id, room_id_from,
};

fn refusal(r: Result<narco::Derived, Error>) -> Error {
    match r {
        Ok(d) => panic!("derived room {}", d.room_id),
        Err(e) => e,
    }
}

fn derived(r: Result<narco::Derived, Error>) -> narco::Derived {
    match r {
        Ok(d) => d,
        Err(e) => panic!("refused: {e:?}"),
    }
}

#[test]
fn derivation_is_deterministic() {
    let a = derived(narco::kdf::derive("hunter2-is-not-great"));
    let b = derived(narco::kdf::derive("hunter2-is-not-great"));
    assert_eq!(a.room_id, b.room_id);
    assert_eq!(a.pake_pw.as_ref(), b.pake_pw.as_ref());
}

#[test]
fn different_codes_give_different_rooms_and_passwords() {
    let a = derived(narco::kdf::derive("hunter2-is-not-great"));
    let b = derived(narco::kdf::derive("hunter3-is-not-great"));
    assert_ne!(a.room_id, b.room_id);
    assert_ne!(a.pake_pw.as_ref(), b.pake_pw.as_ref());
}

#[test]
fn room_id_is_well_formed_and_distinct_from_password() {
    let d = derived(narco::kdf::derive("some-decent-code-42"));
    assert!(is_valid_room_id(&d.room_id), "got {}", d.room_id);
    // The public value must not be a prefix of the secret one.
    let pw_hex: String = d
        .pake_pw
        .as_ref()
        .iter()
        .map(|b| format!("{b:02x}"))
        .collect();
    assert!(!pw_hex.starts_with(&d.room_id));
}

#[test]
fn whitespace_and_unicode_form_do_not_change_the_room() {
    let a = derived(narco::kdf::derive("  caf\u{00e9}-code-here  "));
    let b = derived(narco::kdf::derive("cafe\u{0301}-code-here"));
    assert_eq!(a.room_id, b.room_id);
}

#[test]
fn invalid_codes_are_rejected_before_any_derivation() {
    assert_eq!(refusal(narco::kdf::derive("short")), Error::CodeTooShort);
    assert_eq!(
        refusal(narco::kdf::derive("aaaaaaaaaaaa")),
        Error::CodeTooRepetitive
    );
}

#[test]
fn a_passphrase_changes_everything_derived() {
    let plain = derived(narco::kdf::derive("some-decent-code-42"));
    let with_pass = derived(derive_with_passphrase("some-decent-code-42", "spoken aloud"));
    // Someone holding only the code cannot even find the room.
    assert_ne!(plain.room_id, with_pass.room_id);
    assert_ne!(plain.pake_pw.as_ref(), with_pass.pake_pw.as_ref());
    assert_ne!(plain.onion_seed_a.as_ref(), with_pass.onion_seed_a.as_ref());
}

#[test]
fn a_wrong_passphrase_lands_somewhere_else_entirely() {
    let a = derived(derive_with_passphrase("some-decent-code-42", "correct"));
    let b = derived(derive_with_passphrase("some-decent-code-42", "corrupt"));
    assert_ne!(a.room_id, b.room_id);
}

#[test]
fn empty_passphrase_matches_the_plain_derivation() {
    let a = derived(narco::kdf::derive("some-decent-code-42"));
    let b = derived(derive_with_passphrase("some-decent-code-42", ""));
    assert_eq!(a.room_id, b.room_id);
    assert_eq!(a.pake_pw.as_ref(), b.pake_pw.as_ref());
}

/// Length-prefixing must stop the two secrets being re-split. Without it,
/// ("xk7m2qrt9h", "fz") and ("xk7m2qrt9hf", "z") would be the same room.
#[test]
fn the_split_between_code_and_passphrase_is_unambiguous() {
    let a = derived(derive_with_passphrase("xk7m2qrt9h", "fz"));
    let b = derived(derive_with_passphrase("xk7m2qrt9hf", "z"));
    assert_ne!(a.room_id, b.room_id);
}

#[test]
fn any_number_of_secrets_works_and_is_deterministic() {
    let s = ["some-decent-code-42", "spoken aloud", "written down", "4", "5"];
    assert_eq!(
        derived(derive_multi(&s)).room_id,
        derived(derive_multi(&s)).room_id
    );
    // Each additional secret lands the pair somewhere else entirely.
    let mut seen = std::collections::HashSet::new();
    for n in 1..=s.len() {
        assert!(
            seen.insert(derived(derive_multi(&s[..n])).room_id.clone()),
            "{n} secrets collided with a shorter list"
        );
    }
}

#[test]
fn secret_order_matters() {
    let a = derived(derive_multi(&["some-decent-code-42", "alpha", "beta"]));
    let b = derived(derive_multi(&["some-decent-code-42", "beta", "alpha"]));
    assert_ne!(a.room_id, b.room_id);
}

#[test]
fn empty_secrets_are_ignored_so_blank_fields_are_harmless() {
    let a = derived(derive_multi(&["some-decent-code-42", "extra"]));
    let b = derived(derive_multi(&["", "some-decent-code-42", "", "extra", "  "]));
    assert_eq!(a.room_id, b.room_id);
}

#[test]
fn the_first_secret_must_still_be_a_valid_code() {
    assert_eq!(
        refusal(derive_multi(&["short", "padding"])),
        Error::CodeTooShort
    );
    let empty: [&str; 0] = [];
    assert_eq!(refusal(derive_multi(&empty)), Error::CodeTooShort);
    // Extra secrets are free-form; only the first is constrained.
    derived(derive_multi(&["some-decent-code-42", "a"]));
}

#[test]
fn passphrase_is_unicode_normalized_like_the_code() {
    let a = derived(derive_with_passphrase("some-decent-code-42", "caf\u{00e9}"));
    let b = derived(derive_with_passphrase("some-decent-code-42", "cafe\u{0301}"));
    assert_eq!(a.room_id, b.room_id);
}

#[test]
fn every_derived_secret_is_independent() {
    let d = derived(narco::kdf::derive("some-decent-code-42"));
    let secrets: [&[u8]; 4] = [
        d.pake_pw.as_ref(),
        d.onion_seed_a.as_ref(),
        d.onion_seed_b.as_ref(),
        // The public value must not coincide with any secret.
        d.room_id.as_bytes(),
    ];
    for i in 0..secrets.len() {
        for j in (i + 1)..secrets.len() {
            assert_ne!(secrets[i], secrets[j], "labels {i} and {j} collided");
        }
    }
}

#[test]
fn onion_seeds_are_deterministic_across_derivations() {
    let a = derived(narco::kdf::derive("some-decent-code-42"));
    let b = derived(narco::kdf::derive("some-decent-code-42"));
    // Both peers must land on the same two onion identities.
    assert_eq!(a.onion_seed_a.as_ref(), b.onion_seed_a.as_ref());
    assert_eq!(a.onion_seed_b.as_ref(), b.onion_seed_b.as_ref());
}

#[test]
fn room_id_validator_rejects_junk() {
    assert!(is_valid_room_id("0123456789abcdef0123456789abcdef"));
    assert!(!is_valid_room_id("0123456789ABCDEF0123456789ABCDEF")); // uppercase
    assert!(!is_valid_room_id("short"));
    assert!(!is_valid_room_id("0123456789abcdef0123456789abcdeg")); // 'g'
    assert!(!is_valid_room_id("../../etc/passwd0123456789abcdef"));
}

#[test]
fn secrets_are_encoded_behind_their_lengths() {
    assert_eq!(
        encode_secrets(&["ab".to_owned(), "c".to_owned()]),
        vec![0, 0, 0, 2, 0, 0, 0, 2, b'a', b'b', 0, 0, 0, 1, b'c']
    );
    assert_ne!(
        encode_secrets(&["ab".to_owned(), "c".to_owned()]),
        encode_secrets(&["a".to_owned(), "bc".to_owned()])
    );
    assert_eq!(encode_secrets(&[]), vec![0, 0, 0, 0]);
}

#[test]
fn room_ids_are_the_raw_bytes_in_hexadecimal() {
    let mut raw = [0u8; 16];
    raw[0] = 0xab;
    raw[15] = 0x0f;
    assert_eq!(room_id_from(&raw), "ab00000000000000000000000000000f");
}

#[test]
fn a_copy_derives_nothing_anew() {
    let a = derived(narco::kdf::derive("some-decent-code-42"));
    let b = a.clone();
    assert_eq!(a.room_id, b.room_id);
    assert_eq!(a.pake_pw.as_ref(), b.pake_pw.as_ref());
    assert_eq!(a.onion_seed_b.as_ref(), b.onion_seed_b.as_ref());
}

#[test]
fn debug_output_shows_the_room_and_no_secret() {
    let d = narco::kdf::derive("PWXK7M2QRT9HFZ").unwrap();
    assert_eq!(
        d.to_debug(),
        format!(
            "Derived {{ room_id: {:?}, pake_pw: {:?}, onion_seed_a: {:?}, onion_seed_b: {:?} }}",
            d.room_id, "<redacted>", "<redacted>", "<redacted>"
        )
    );
}

#[test]
fn stretched_secrets_are_expanded_under_their_labels() {
    let ikm = [7u8; 64];
    let d = derived(narco::kdf::expand(&narco::secret::Secret::new(ikm)));
    let hk = hkdf::Hkdf::<sha2::Sha256>::new(None, &ikm);
    let mut room = [0u8; 16];
    hk.expand(b"narco/v1/room-id", &mut room).unwrap();
    assert_eq!(d.room_id, room_id_from(&room));
    for (info, got) in [
        ("narco/v1/pake-pw", d.pake_pw.as_ref()),
        ("narco/v1/onion-a", d.onion_seed_a.as_ref()),
        ("narco/v1/onion-b", d.onion_seed_b.as_ref()),
    ] {
        let mut expected = [0u8; 32];
        hk.expand(info.as_bytes(), &mut expected).unwrap();
        assert_eq!(got, &expected, "{info}");
    }
}
