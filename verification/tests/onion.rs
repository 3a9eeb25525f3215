use base64::Engine;
use narco::identity::{identities, identity, OnionIdentity, Slot};
use narco::kdf::Derived;
use narco::onion::{clamp, onion_key, write_address};
use safelog::DisplayRedacted;
use sha2::Digest;

const CODE: &str = "PWXK7M2QRT9HFZ";

fn derived(code: &str) -> Derived {
    match narco::kdf::derive(code) {
        Ok(d) => d,
        Err(e) => panic!("refused: {e:?}"),
    }
}

/// Addresses must never drift: a change here would move where peers meet
/// and silently break every code already in use.
#[test]
fn addresses_match_known_vectors() {
    for (code, want) in [
        (
            "PWXK7M2QRT9HFZ",
            "nhcp7vstfbdtyxjz3cz2752qvcife4vnliikpux3c3kijquxd2ksxjqd.onion",
        ),
        (
            "13749832sfdbdjdv78394324",
            "47v7es3j2epeuqz3cmkrxhu2mzhaeud2jvsw5goedca2hublscb74kid.onion",
        ),
    ] {
        let got = onion_key(&derived(code)).address;
        assert_eq!(got, want, "address drifted for {code:?}");
    }
}

#[test]
fn address_is_well_formed() {
    let d = derived("PWXK7M2QRT9HFZ");
    let k = onion_key(&d);
    assert!(k.address.ends_with(".onion"));
    assert_eq!(k.address.len(), 62, "v3 = 56 base32 chars + .onion");
    // 64-byte expanded key base64-encodes to 88 chars.
    assert_eq!(k.control_blob.as_str().len(), 88);
}

#[test]
fn derivation_is_deterministic_and_code_specific() {
    let a = onion_key(&derived("PWXK7M2QRT9HFZ"));
    let b = onion_key(&derived("PWXK7M2QRT9HFZ"));
    let c = onion_key(&derived("LDN4VB8SGJ3YQC"));
    assert_eq!(a.address, b.address);
    assert_eq!(a.control_blob.as_str(), b.control_blob.as_str());
    assert_ne!(a.address, c.address);
}

#[test]
fn debug_does_not_leak() {
    let k = onion_key(&derived("PWXK7M2QRT9HFZ"));
    let s = k.to_debug();
    assert!(!s.contains(k.address.trim_end_matches(".onion")));
    assert!(!s.contains(k.control_blob.as_str()));
}

#[test]
fn a_code_maps_to_two_valid_onion_addresses() {
    let d = derived(CODE);
    let (a, b) = identities(&d);

    for id in [&a, &b] {
        assert!(id.address.ends_with(".onion"));
        // v3: 56 base32 characters plus the suffix.
        assert_eq!(id.address.len(), 62, "bad address: {}", id.address);
        // Parsing with Tor's own parser validates version and checksum,
        // proving the address is real and not merely the right shape.
        let parsed: tor_hscrypto::pk::HsId =
            id.address.parse().expect("must be a valid onion address");
        assert_eq!(parsed.display_unredacted().to_string(), id.address);
    }
    assert_ne!(a.address, b.address, "the two slots must differ");
}

/// The property the whole design rests on: two devices, same code, same
/// meeting point, with nothing exchanged between them.
#[test]
fn both_peers_independently_derive_the_same_addresses() {
    let peer1 = derived(CODE);
    let peer2 = derived(CODE);
    let (a1, b1) = identities(&peer1);
    let (a2, b2) = identities(&peer2);
    assert_eq!(a1.address, a2.address);
    assert_eq!(b1.address, b2.address);
}

#[test]
fn a_different_code_meets_somewhere_else() {
    let (a1, b1) = identities(&derived(CODE));
    let (a2, b2) = identities(&derived("LDN4VB8SGJ3YQC"));
    for x in [&a1.address, &b1.address] {
        for y in [&a2.address, &b2.address] {
            assert_ne!(x, y, "codes must not collide");
        }
    }
}

#[test]
fn slot_helper_is_consistent_with_the_pair() {
    let d = derived(CODE);
    let (a, b) = identities(&d);
    assert_eq!(identity(&d, Slot::A).address, a.address);
    assert_eq!(identity(&d, Slot::B).address, b.address);
    assert_eq!(Slot::A.other(), Slot::B);
    assert_eq!(Slot::B.other(), Slot::A);
}

#[test]
fn debug_output_never_leaks_the_address_or_key() {
    let d = derived(CODE);
    let (a, _) = identities(&d);
    let rendered = a.to_debug();
    assert!(!rendered.contains(a.address.trim_end_matches(".onion")));
    assert!(rendered.contains("redacted"));
}

/// Host and joiner must derive the *same* meeting address from the code, or
/// they would never find each other.
#[test]
fn host_and_joiner_target_one_shared_address() {
    let d = derived("PWXK7M2QRT9HFZ");
    let host_sees = identity(&d, Slot::A).address;
    let join_sees = identity(&d, Slot::A).address;
    assert_eq!(host_sees, join_sees);
}

#[test]
fn both_engines_meet_at_one_address() {
    let d = derived(CODE);
    assert_eq!(identity(&d, Slot::A).address, onion_key(&d).address);
}

#[test]
fn a_keypair_belongs_to_its_address() {
    let d = derived(CODE);
    let id: OnionIdentity = identity(&d, Slot::B);
    let address = id.address.clone();
    let keypair = id.into_keypair();
    let shown = tor_hscrypto::pk::HsIdKey::from(&keypair)
        .id()
        .display_unredacted()
        .to_string();
    assert_eq!(shown, address);
}

#[test]
fn slots_have_names() {
    assert_eq!(Slot::A.as_str(), "A");
    assert_eq!(Slot::B.as_str(), "B");
    assert_eq!(
        identity(&derived(CODE), Slot::B).to_debug(),
        "OnionIdentity { slot: B, address: \"<redacted>.onion\", keypair: \"<redacted>\" }"
    );
}

#[test]
fn clamping_touches_two_bytes() {
    let out = clamp([0xff; 64]);
    let bytes = out.as_ref();
    assert_eq!(bytes[0], 248);
    assert_eq!(bytes[31], 127);
    assert_eq!(bytes[1], 0xff);
    assert_eq!(bytes[63], 0xff);
    assert_eq!(clamp([0; 64]).as_ref()[31], 64);
}

#[test]
fn addresses_are_written_in_lower_case_base32() {
    // 32 zero bytes, the checksum bytes 0xff 0xff, version 3.
    let address = write_address(&[0u8; 32], &[0xff; 32]);
    assert_eq!(
        address,
        format!("{}p77yd.onion", "a".repeat(51))
    );
}

#[test]
fn a_seed_expands_to_the_blob_of_its_hash() {
    let d = derived(CODE);
    let mut hash: [u8; 64] = sha2::Sha512::digest(d.onion_seed_a.as_ref()).into();
    hash[0] &= 248;
    hash[31] &= 127;
    hash[31] |= 64;
    assert_eq!(
        onion_key(&d).control_blob.as_str(),
        base64::engine::general_purpose::STANDARD.encode(hash)
    );
}

#[test]
fn different_keys_have_different_addresses() {
    let zero = write_address(&[0u8; 32], &[9; 32]);
    let mut key = [0u8; 32];
    key[31] = 1;
    assert_ne!(zero, write_address(&key, &[9; 32]));
    key[31] = 0;
    assert_eq!(zero, write_address(&key, &[9; 32]));
}
