//! Deriving the room identifier and PAKE password from the room code.

use vstd::prelude::*;
use crate::bytes::push_be;
use crate::code;
use crate::crypto::{argon2id_hash, hkdf_expand};
use crate::error::Error;
use crate::secret::{Secret, SecretVec};
use crate::text::push_hex;

verus! {

/// Argon2id memory cost in KiB. Chosen to stay comfortable on mobile while
/// making offline guessing of a weak code expensive.
pub const ARGON_MEM_KIB: u32 = 32 * 1024;

pub const ARGON_TIME: u32 = 3;

pub const ARGON_LANES: u32 = 1;

/// Fixed salt. It must be a constant: both peers derive from the code alone,
/// with nothing else to agree on.
pub const SALT: &'static str = "narco-v1-room-salt";

pub const INFO_ROOM_ID: &'static str = "narco/v1/room-id";

pub const INFO_PAKE_PW: &'static str = "narco/v1/pake-pw";

pub const INFO_ONION_A: &'static str = "narco/v1/onion-a";

pub const INFO_ONION_B: &'static str = "narco/v1/onion-b";

/// Everything derivable from a room code.
///
/// Cheap to clone, and deliberately so: the Tor transport opens several
/// candidate connections at once and each needs its own
/// [`Session`](crate::session::Session). Cloning this avoids re-running
/// Argon2id per candidate, which would cost a hundred milliseconds each time.
pub struct Derived {
    /// Public: names the room on a relay. 32 lowercase hex chars.
    pub room_id: String,
    /// Secret: the SPAKE2 password. Never leaves the device.
    pub pake_pw: Secret<32>,
    /// Secret: ed25519 seed for onion identity A.
    pub onion_seed_a: Secret<32>,
    /// Secret: ed25519 seed for onion identity B.
    pub onion_seed_b: Secret<32>,
}

/// What is derived from the secrets.
pub struct DerivedView {
    pub room_id: Seq<char>,
    pub pake_pw: Seq<u8>,
    pub onion_seed_a: Seq<u8>,
    pub onion_seed_b: Seq<u8>,
}

impl View for Derived {
    type V = DerivedView;

    open spec fn view(&self) -> DerivedView {
        DerivedView {
            room_id: self.room_id@,
            pake_pw: self.pake_pw@,
            onion_seed_a: self.onion_seed_a@,
            onion_seed_b: self.onion_seed_b@,
        }
    }
}

impl Clone for Derived {
    fn clone(&self) -> (copy: Self)
        ensures
            copy@ == self@,
    {
        Derived {
            room_id: self.room_id.clone(),
            pake_pw: self.pake_pw.clone(),
            onion_seed_a: self.onion_seed_a.clone(),
            onion_seed_b: self.onion_seed_b.clone(),
        }
    }
}

impl Derived {
    /// What was derived as it may be shown in a log: the room id, and none of
    /// the secrets.
    pub fn to_debug(&self) -> (text: String)
        ensures
            text@ == "Derived { room_id: \""@ + self@.room_id
                + "\", pake_pw: \"<redacted>\", onion_seed_a: \"<redacted>\", onion_seed_b: \"<redacted>\" }"@,
    {
        let mut text: String = "Derived { room_id: \"".to_owned();
        text.append(self.room_id.as_str());
        text.append(
            "\", pake_pw: \"<redacted>\", onion_seed_a: \"<redacted>\", onion_seed_b: \"<redacted>\" }",
        );
        text
    }
}

/// The texts of a list of strings.
pub open spec fn texts(raw: Seq<&str>) -> Seq<Seq<char>> {
    Seq::new(raw.len(), |i: int| raw[i]@)
}

/// The secrets that count, in their order: each normalized, blank ones left
/// out.
pub open spec fn kept(raw: Seq<Seq<char>>) -> Seq<Seq<char>>
    decreases raw.len(),
{
    if raw.len() == 0 {
        Seq::empty()
    } else {
        let before = kept(raw.drop_last());
        let last = code::normalized(raw.last());
        if last.len() == 0 {
            before
        } else {
            before.push(last)
        }
    }
}

/// The low 32 bits of a length, big-endian.
pub open spec fn be32(n: nat) -> Seq<u8> {
    crate::bytes::be(n % 0x1_0000_0000, 4)
}

/// One secret behind its length.
pub open spec fn prefixed(secret: Seq<char>) -> Seq<u8> {
    be32(vstd::utf8::encode_utf8(secret).len()) + vstd::utf8::encode_utf8(secret)
}

/// The secrets one after another, each behind its length.
pub open spec fn prefixed_all(secrets: Seq<Seq<char>>) -> Seq<u8>
    decreases secrets.len(),
{
    if secrets.len() == 0 {
        Seq::empty()
    } else {
        prefixed(secrets[0]) + prefixed_all(secrets.skip(1))
    }
}

/// The password that is stretched: the number of secrets, then each secret
/// behind its length.
///
/// Each secret is length-prefixed so the sequence cannot be re-split
/// ambiguously. Plain concatenation would make ("ab", "c") and ("a", "bc")
/// the same room. The count is prefixed too, so adding a trailing empty
/// secret can never coincide with a shorter list.
pub open spec fn secret_bytes(secrets: Seq<Seq<char>>) -> Seq<u8> {
    be32(secrets.len()) + prefixed_all(secrets)
}

/// The stretched secrets.
pub open spec fn stretched(secrets: Seq<Seq<char>>) -> Option<Seq<u8>> {
    crate::crypto::argon2id(
        secret_bytes(secrets),
        crate::crypto::label(SALT),
        ARGON_MEM_KIB,
        ARGON_TIME,
        ARGON_LANES,
    )
}

/// What the stretched secrets are expanded to.
pub open spec fn expanded(ikm: Seq<u8>) -> DerivedView {
    DerivedView {
        room_id: crate::text::hex(
            crate::crypto::hkdf_sha256(None, ikm, crate::crypto::label(INFO_ROOM_ID), 16),
        ),
        pake_pw: crate::crypto::hkdf_sha256(None, ikm, crate::crypto::label(INFO_PAKE_PW), 32),
        onion_seed_a: crate::crypto::hkdf_sha256(None, ikm, crate::crypto::label(INFO_ONION_A), 32),
        onion_seed_b: crate::crypto::hkdf_sha256(None, ikm, crate::crypto::label(INFO_ONION_B), 32),
    }
}

/// What a list of secrets derives, or why it derives nothing.
pub open spec fn derivation(raw: Seq<Seq<char>>) -> Result<DerivedView, Error> {
    let secrets = kept(raw);
    if secrets.len() == 0 {
        Err(Error::CodeTooShort)
    } else {
        match code::verdict(secrets[0], code::lowercase(secrets[0])) {
            Err(e) => Err(e),
            Ok(_) => match stretched(secrets) {
                None => Err(Error::Kdf),
                Some(ikm) => Ok(expanded(ikm)),
            },
        }
    }
}

/// Whether everything in `view` is drawn from `password`: stretched as a whole
/// with Argon2id, then expanded with HKDF-SHA256 under one label each.
pub open spec fn is_drawn_from(view: DerivedView, password: Seq<u8>) -> bool {
    let salt = vstd::utf8::encode_utf8("narco-v1-room-salt"@);
    match crate::crypto::argon2id(password, salt, 32_768, 3, 1) {
        None => false,
        Some(ikm) => {
            let drawn = |info: Seq<char>, len: nat|
                crate::crypto::hkdf_sha256(None, ikm, vstd::utf8::encode_utf8(info), len);
            &&& view.room_id == crate::text::hex(drawn("narco/v1/room-id"@, 16))
            &&& view.pake_pw == drawn("narco/v1/pake-pw"@, 32)
            &&& view.onion_seed_a == drawn("narco/v1/onion-a"@, 32)
            &&& view.onion_seed_b == drawn("narco/v1/onion-b"@, 32)
        },
    }
}

/// Whether `r` is what a derivation says.
pub open spec fn yields(r: Result<Derived, Error>, d: Result<DerivedView, Error>) -> bool {
    match (r, d) {
        (Ok(out), Ok(view)) => out@ == view && valid_room_id(
            vstd::utf8::encode_utf8(out.room_id@),
        ),
        (Err(e), Err(why)) => e == why,
        _ => false,
    }
}

/// Stretch a room code into a room id and a PAKE password.
///
/// Equivalent to [`derive_with_passphrase`] with an empty passphrase.
pub fn derive(raw_code: &str) -> (r: Result<Derived, Error>)
    ensures
        yields(r, derivation(seq![raw_code@, Seq::empty()])),
        yields(r, derivation(seq![raw_code@])),
        r == Err::<Derived, Error>(Error::Kdf) ==> secret_bytes(kept(seq![raw_code@])).len()
            > u32::MAX,
{
    proof {
        reveal_strlit("");
        assert(""@ =~= Seq::<char>::empty());
        let both = seq![raw_code@, Seq::<char>::empty()];
        assert(both.drop_last() =~= seq![raw_code@]);
    }
    derive_with_passphrase(raw_code, "")
}

/// Stretch a room code plus one extra secret.
///
/// Convenience wrapper over [`derive_multi`].
pub fn derive_with_passphrase(raw_code: &str, raw_passphrase: &str) -> (r: Result<Derived, Error>)
    ensures
        yields(r, derivation(seq![raw_code@, raw_passphrase@])),
        r == Err::<Derived, Error>(Error::Kdf) ==> secret_bytes(
            kept(seq![raw_code@, raw_passphrase@]),
        ).len() > u32::MAX,
{
    let mut list: Vec<&str> = Vec::new();
    list.push(raw_code);
    list.push(raw_passphrase);
    assert(texts(list@) =~= seq![raw_code@, raw_passphrase@]);
    derive_multi(list.as_slice())
}

/// Stretch any number of shared secrets into a room id and a PAKE password.
///
/// Both peers must supply the same secrets **in the same order**. Empty entries
/// are ignored, so a UI can offer several fields and let people fill in as many
/// as they want. The first non-empty secret is the room code and must satisfy
/// [`code::validate`]; the rest are free-form.
///
/// # What extra secrets actually buy
///
/// Cryptographically, `n` secrets are *identical* to one longer secret — their
/// entropy simply adds. Five secrets are not five times stronger than one, and
/// against a generated 130-bit code, guessing is already hopeless with just one.
///
/// The real gain is **channel separation**, and that does scale. Send each
/// secret a different way — one messaged, one spoken on a call, one said in
/// person — and an attacker must compromise *every* channel to learn anything.
/// Compromising all but one yields nothing at all: every derived value depends
/// on every secret, so a party missing one cannot even locate the room, let
/// alone impersonate a peer.
pub fn derive_multi(raw_secrets: &[&str]) -> (r: Result<Derived, Error>)
    ensures
        yields(r, derivation(texts(raw_secrets@))),
        r matches Ok(d) ==> is_drawn_from(d@, secret_bytes(kept(texts(raw_secrets@)))),
        r == Err::<Derived, Error>(Error::Kdf) ==> secret_bytes(kept(texts(raw_secrets@))).len()
            > u32::MAX,
{
    let secrets: Vec<String> = keep(raw_secrets);
    if secrets.len() == 0 {
        return Err(Error::CodeTooShort);
    }
    if let Err(e) = code::validate(secrets[0].as_str()) {
        return Err(e);
    }
    let password: SecretVec = SecretVec::new(encode_secrets(secrets.as_slice()));
    proof {
        lemma_salt_len();
    }
    match argon2id_hash(
        password.as_slice(),
        SALT.as_bytes(),
        ARGON_MEM_KIB,
        ARGON_TIME,
        ARGON_LANES,
    ) {
        None => Err(Error::Kdf),
        Some(ikm) => {
            let ikm: Secret<64> = Secret::new(ikm);
            expand(&ikm)
        },
    }
}

/// The texts of a list of owned strings.
pub open spec fn string_texts(secrets: Seq<String>) -> Seq<Seq<char>> {
    Seq::new(secrets.len(), |i: int| secrets[i]@)
}

proof fn lemma_salt_len()
    ensures
        crate::crypto::label(SALT).len() == 18,
{
    reveal_strlit("narco-v1-room-salt");
    vstd::utf8::is_ascii_chars_encode_utf8(SALT@);
}

/// Normalize the secrets and leave out the blank ones.
fn keep(raw: &[&str]) -> (secrets: Vec<String>)
    ensures
        string_texts(secrets@) == kept(texts(raw@)),
{
    let mut secrets: Vec<String> = Vec::new();
    let mut i: usize = 0;
    assert(string_texts(secrets@) =~= kept(texts(raw@).take(0)));
    while i < raw.len()
        invariant
            i <= raw@.len(),
            string_texts(secrets@) == kept(texts(raw@).take(i as int)),
        decreases raw@.len() - i,
    {
        let s: String = code::normalize(raw[i]);
        let ghost had = secrets@;
        proof {
            let next = texts(raw@).take(i + 1);
            assert(next.drop_last() =~= texts(raw@).take(i as int));
            assert(next.last() == raw@[i as int]@);
        }
        if !s.as_str().is_empty() {
            secrets.push(s);
            assert(string_texts(secrets@) =~= string_texts(had).push(s@));
        }
        i = i + 1;
    }
    assert(texts(raw@).take(i as int) =~= texts(raw@));
    secrets
}

/// Append the low 32 bits of a length.
fn push_be32(out: &mut Vec<u8>, n: usize)
    ensures
        final(out)@ == old(out)@ + be32(n as nat),
{
    push_be(out, n as u64 % 0x1_0000_0000, 4);
}

proof fn lemma_prefixed_all_push(secrets: Seq<Seq<char>>, last: Seq<char>)
    ensures
        prefixed_all(secrets.push(last)) == prefixed_all(secrets) + prefixed(last),
    decreases secrets.len(),
{
    if secrets.len() == 0 {
        reveal_with_fuel(prefixed_all, 2);
        assert(secrets.push(last).skip(1) =~= Seq::<Seq<char>>::empty());
        assert(prefixed_all(secrets.push(last)) =~= prefixed(last));
        assert(prefixed_all(secrets) + prefixed(last) =~= prefixed(last));
    } else {
        lemma_prefixed_all_push(secrets.skip(1), last);
        assert(secrets.push(last).skip(1) =~= secrets.skip(1).push(last));
        assert(prefixed_all(secrets.push(last)) =~= prefixed_all(secrets) + prefixed(last));
    }
}

/// Encode normalized secrets as the password that is stretched.
pub fn encode_secrets(secrets: &[String]) -> (out: Vec<u8>)
    ensures
        out@ == secret_bytes(string_texts(secrets@)),
{
    let ghost words = string_texts(secrets@);
    let mut out: Vec<u8> = Vec::new();
    push_be32(&mut out, secrets.len());
    let mut i: usize = 0;
    assert(out@ =~= be32(words.len()) + prefixed_all(words.take(0)));
    while i < secrets.len()
        invariant
            i <= secrets@.len(),
            words == string_texts(secrets@),
            out@ == be32(words.len()) + prefixed_all(words.take(i as int)),
        decreases secrets@.len() - i,
    {
        let text: &[u8] = secrets[i].as_str().as_bytes();
        push_be32(&mut out, text.len());
        out.extend_from_slice(text);
        proof {
            assert(words.take(i + 1) =~= words.take(i as int).push(words[i as int]));
            lemma_prefixed_all_push(words.take(i as int), words[i as int]);
            assert(out@ =~= be32(words.len()) + prefixed_all(words.take(i + 1)));
        }
        i = i + 1;
    }
    assert(words.take(i as int) =~= words);
    out
}

/// Write the raw room identifier as it is named on a relay.
pub fn room_id_from(raw: &[u8; 16]) -> (room_id: String)
    ensures
        room_id@ == crate::text::hex(raw@),
        valid_room_id(vstd::utf8::encode_utf8(room_id@)),
{
    let mut room_id: String = String::new();
    push_hex(&mut room_id, raw.as_slice());
    assert(room_id@ =~= crate::text::hex(raw@));
    proof {
        law_hex_names_are_room_ids(raw@);
    }
    room_id
}

/// Expand the stretched secrets into everything a room needs.
pub fn expand(ikm: &Secret<64>) -> (r: Result<Derived, Error>)
    ensures
        yields(r, Ok(expanded(ikm@))),
{
    let key: &[u8] = ikm.as_ref().as_slice();
    let room_raw: Secret<16> = match hkdf_expand::<16>(None, key, INFO_ROOM_ID.as_bytes()) {
        Some(out) => Secret::new(out),
        None => {
            return Err(Error::Kdf);
        },
    };
    let pake_pw: Secret<32> = match hkdf_expand::<32>(None, key, INFO_PAKE_PW.as_bytes()) {
        Some(out) => Secret::new(out),
        None => {
            return Err(Error::Kdf);
        },
    };
    let onion_seed_a: Secret<32> = match hkdf_expand::<32>(None, key, INFO_ONION_A.as_bytes()) {
        Some(out) => Secret::new(out),
        None => {
            return Err(Error::Kdf);
        },
    };
    let onion_seed_b: Secret<32> = match hkdf_expand::<32>(None, key, INFO_ONION_B.as_bytes()) {
        Some(out) => Secret::new(out),
        None => {
            return Err(Error::Kdf);
        },
    };
    let room_id: String = room_id_from(room_raw.as_ref());
    Ok(Derived { room_id, pake_pw, onion_seed_a, onion_seed_b })
}

/// A lowercase hexadecimal digit, as ASCII.
pub open spec fn is_hex_byte(b: u8) -> bool {
    0x30 <= b <= 0x39 || 0x61 <= b <= 0x66
}

/// Exactly 32 lowercase hexadecimal digits.
pub open spec fn valid_room_id(bytes: Seq<u8>) -> bool {
    bytes.len() == 32 && forall|i: int| 0 <= i < 32 ==> is_hex_byte(#[trigger] bytes[i])
}

/// True if `s` is exactly 32 lowercase hex characters. Used by both the client
/// and the relay to reject malformed room identifiers.
pub fn is_valid_room_id(s: &str) -> (valid: bool)
    ensures
        valid == valid_room_id(vstd::utf8::encode_utf8(s@)),
{
    is_room_id_bytes(s.as_bytes())
}

/// True if `bytes` are exactly 32 lowercase hex characters in ASCII.
pub fn is_room_id_bytes(bytes: &[u8]) -> (valid: bool)
    ensures
        valid == valid_room_id(bytes@),
{
    if bytes.len() != 32 {
        return false;
    }
    let mut i: usize = 0;
    while i < 32
        invariant
            i <= 32 == bytes@.len(),
            forall|j: int| 0 <= j < i ==> is_hex_byte(#[trigger] bytes@[j]),
        decreases 32 - i,
    {
        let b: u8 = bytes[i];
        if !((0x30 <= b && b <= 0x39) || (0x61 <= b && b <= 0x66)) {
            assert(!is_hex_byte(bytes@[i as int]));
            return false;
        }
        i = i + 1;
    }
    true
}

/// Sixteen bytes in hexadecimal always are a well-formed room identifier.
pub proof fn law_hex_names_are_room_ids(raw: Seq<u8>)
    requires
        raw.len() == 16,
    ensures
        valid_room_id(vstd::utf8::encode_utf8(crate::text::hex(raw))),
{
    let name = crate::text::hex(raw);
    assert forall|i: int| 0 <= i < name.len() implies '\0' <= #[trigger] name[i] <= '\u{7f}' by {}
    vstd::utf8::is_ascii_chars_encode_utf8(name);
    let bytes = vstd::utf8::encode_utf8(name);
    assert forall|i: int| 0 <= i < 32 implies is_hex_byte(#[trigger] bytes[i]) by {
        assert(bytes[i] == name[i] as u8);
    }
}

/// Blank entries are ignored wherever they stand: a list derives what it
/// derives without them.
pub proof fn law_blank_entries_are_ignored(raw: Seq<Seq<char>>, blank: Seq<char>, at: int)
    requires
        0 <= at <= raw.len(),
        crate::text::trimmed(blank).len() == 0,
    ensures
        kept(raw.insert(at, blank)) == kept(raw),
        derivation(raw.insert(at, blank)) == derivation(raw),
    decreases raw.len(),
{
    let with = raw.insert(at, blank);
    if at == raw.len() {
        assert(with.drop_last() =~= raw);
    } else {
        law_blank_entries_are_ignored(raw.drop_last(), blank, at);
        assert(with.drop_last() =~= raw.drop_last().insert(at, blank));
        assert(with.last() == raw.last());
    }
}

proof fn lemma_be32_injective(a: nat, b: nat)
    requires
        a < 0x1_0000_0000,
        b < 0x1_0000_0000,
        be32(a) == be32(b),
    ensures
        a == b,
{
    crate::bytes::lemma_pow256_widths();
    crate::bytes::lemma_be_round_trip(a, 4);
    crate::bytes::lemma_be_round_trip(b, 4);
}

/// Lists short enough for their lengths to be written down.
pub open spec fn countable(secrets: Seq<Seq<char>>) -> bool {
    &&& secrets.len() < 0x1_0000_0000
    &&& forall|i: int|
        0 <= i < secrets.len() ==> vstd::utf8::encode_utf8(#[trigger] secrets[i]).len()
            < 0x1_0000_0000
}

proof fn lemma_prefixed_all_injective(a: Seq<Seq<char>>, b: Seq<Seq<char>>)
    requires
        a.len() == b.len(),
        countable(a),
        countable(b),
        prefixed_all(a) == prefixed_all(b),
    ensures
        a == b,
    decreases a.len(),
{
    if a.len() > 0 {
        let pa = prefixed_all(a);
        let pb = prefixed_all(b);
        let ua = vstd::utf8::encode_utf8(a[0]);
        let ub = vstd::utf8::encode_utf8(b[0]);
        crate::bytes::lemma_be_len(ua.len() % 0x1_0000_0000, 4);
        crate::bytes::lemma_be_len(ub.len() % 0x1_0000_0000, 4);
        assert(pa.take(4) =~= be32(ua.len()));
        assert(pb.take(4) =~= be32(ub.len()));
        lemma_be32_injective(ua.len(), ub.len());
        assert(pa.subrange(4, 4 + ua.len() as int) =~= ua);
        assert(pb.subrange(4, 4 + ub.len() as int) =~= ub);
        vstd::utf8::encode_utf8_decode_utf8(a[0]);
        vstd::utf8::encode_utf8_decode_utf8(b[0]);
        assert(pa.skip(4 + ua.len() as int) =~= prefixed_all(a.skip(1)));
        assert(pb.skip(4 + ub.len() as int) =~= prefixed_all(b.skip(1)));
        lemma_prefixed_all_injective(a.skip(1), b.skip(1));
        assert(a =~= seq![a[0]] + a.skip(1));
        assert(b =~= seq![b[0]] + b.skip(1));
    } else {
        assert(a =~= b);
    }
}

/// Different lists of secrets are stretched from different passwords: neither
/// another split, nor another order, nor one secret more or fewer, comes to the
/// same bytes. (Lengths of 2^32 and more wrap around, and are left out.)
pub proof fn law_secret_lists_are_unambiguous(a: Seq<Seq<char>>, b: Seq<Seq<char>>)
    requires
        countable(a),
        countable(b),
        a != b,
    ensures
        secret_bytes(a) != secret_bytes(b),
{
    if secret_bytes(a) == secret_bytes(b) {
        crate::bytes::lemma_be_len(a.len() % 0x1_0000_0000, 4);
        crate::bytes::lemma_be_len(b.len() % 0x1_0000_0000, 4);
        assert(secret_bytes(a).take(4) =~= be32(a.len()));
        assert(secret_bytes(b).take(4) =~= be32(b.len()));
        lemma_be32_injective(a.len(), b.len());
        assert(secret_bytes(a).skip(4) =~= prefixed_all(a));
        assert(secret_bytes(b).skip(4) =~= prefixed_all(b));
        lemma_prefixed_all_injective(a, b);
    }
}

/// Only the first secret that is not blank has to be a valid code: a list is
/// refused for its code exactly where that secret is, and a list of blanks is
/// refused as too short.
pub proof fn law_only_the_first_secret_is_constrained(raw: Seq<Seq<char>>)
    ensures
        kept(raw).len() == 0 ==> derivation(raw) == Err::<DerivedView, Error>(Error::CodeTooShort),
        kept(raw).len() > 0 && code::verdict(kept(raw)[0], code::lowercase(kept(raw)[0])) is Ok
            ==> derivation(raw) == (match stretched(kept(raw)) {
            Some(ikm) => Ok::<DerivedView, Error>(expanded(ikm)),
            None => Err(Error::Kdf),
        }),
{
}

/// Every derived value depends on every secret, all of it: what is stretched is
/// the whole encoding of all of them, and lists that differ in any secret, or in
/// how many there are, are stretched from different passwords. (Lengths of 2^32
/// and more wrap around, and are left out of the comparison.)
pub proof fn law_every_secret_is_stretched(a: Seq<Seq<char>>, b: Seq<Seq<char>>)
    ensures
        derivation(a) matches Ok(view) ==> {
            let ikm = crate::crypto::argon2id(
                secret_bytes(kept(a)),
                vstd::utf8::encode_utf8("narco-v1-room-salt"@),
                32_768,
                3,
                1,
            );
            let drawn = |info: Seq<char>, len: nat|
                crate::crypto::hkdf_sha256(None, ikm->0, vstd::utf8::encode_utf8(info), len);
            &&& ikm is Some
            &&& view.room_id == crate::text::hex(drawn("narco/v1/room-id"@, 16))
            &&& view.pake_pw == drawn("narco/v1/pake-pw"@, 32)
            &&& view.onion_seed_a == drawn("narco/v1/onion-a"@, 32)
            &&& view.onion_seed_b == drawn("narco/v1/onion-b"@, 32)
            &&& is_drawn_from(view, secret_bytes(kept(a)))
        },
        countable(kept(a)) && countable(kept(b)) && kept(a) != kept(b) ==> secret_bytes(kept(a))
            != secret_bytes(kept(b)),
{
    if countable(kept(a)) && countable(kept(b)) && kept(a) != kept(b) {
        law_secret_lists_are_unambiguous(kept(a), kept(b));
    }
}

/// The stretched password is the number of secrets, then for each of them, in
/// order, its length in bytes and all of its bytes.
pub proof fn law_secrets_are_laid_out(secrets: Seq<Seq<char>>, last: Seq<char>)
    ensures
        secret_bytes(Seq::empty()) == crate::bytes::be(0, 4),
        secret_bytes(secrets).len() >= 4,
        secret_bytes(secrets).take(4) == crate::bytes::be(secrets.len() % 0x1_0000_0000, 4),
        secret_bytes(secrets.push(last)).skip(4) == secret_bytes(secrets).skip(4)
            + crate::bytes::be(vstd::utf8::encode_utf8(last).len() % 0x1_0000_0000, 4)
            + vstd::utf8::encode_utf8(last),
{
    crate::bytes::lemma_be_len(secrets.len() % 0x1_0000_0000, 4);
    crate::bytes::lemma_be_len(secrets.push(last).len() % 0x1_0000_0000, 4);
    assert(secret_bytes(Seq::empty()) =~= crate::bytes::be(0, 4));
    assert(secret_bytes(secrets).take(4) =~= be32(secrets.len()));
    assert(secret_bytes(secrets).skip(4) =~= prefixed_all(secrets));
    lemma_prefixed_all_push(secrets, last);
    assert(secret_bytes(secrets.push(last)).skip(4) =~= prefixed_all(secrets.push(last)));
    assert(prefixed_all(secrets) + prefixed(last) =~= secret_bytes(secrets).skip(4)
        + crate::bytes::be(vstd::utf8::encode_utf8(last).len() % 0x1_0000_0000, 4)
        + vstd::utf8::encode_utf8(last));
}

/// Every secret that is not blank counts, in its place: a list counts for what
/// its parts count for, one after the other, and a single secret for its
/// normalized form, or for nothing where that is empty.
pub proof fn law_every_secret_counts_in_its_place(
    a: Seq<Seq<char>>,
    b: Seq<Seq<char>>,
    secret: Seq<char>,
)
    ensures
        kept(a + b) == kept(a) + kept(b),
        kept(seq![secret]) == (if code::normalized(secret).len() == 0 {
            Seq::empty()
        } else {
            seq![code::normalized(secret)]
        }),
    decreases b.len(),
{
    reveal_with_fuel(kept, 2);
    assert(seq![secret].drop_last() =~= Seq::<Seq<char>>::empty());
    assert(kept(seq![secret]) =~= (if code::normalized(secret).len() == 0 {
        Seq::empty()
    } else {
        seq![code::normalized(secret)]
    }));
    if b.len() == 0 {
        assert(a + b =~= a);
        assert(kept(a) + kept(b) =~= kept(a));
    } else {
        law_every_secret_counts_in_its_place(a, b.drop_last(), secret);
        assert((a + b).drop_last() =~= a + b.drop_last());
        assert((a + b).last() == b.last());
        assert(kept(a + b) =~= kept(a) + kept(b));
    }
}

/// A list is refused for its first secret that counts, and only for that one;
/// where none counts it is refused as too short.
pub proof fn law_why_a_list_is_refused(raw: Seq<Seq<char>>)
    ensures
        derivation(raw) matches Err(e) ==> {
            ||| kept(raw).len() == 0 && e == Error::CodeTooShort
            ||| kept(raw).len() > 0 && code::verdict(
                kept(raw)[0],
                code::lowercase(kept(raw)[0]),
            ) == Err::<(), Error>(e)
            ||| e == Error::Kdf && crate::crypto::argon2id(
                secret_bytes(kept(raw)),
                vstd::utf8::encode_utf8("narco-v1-room-salt"@),
                32_768,
                3,
                1,
            ) is None
        },
        derivation(raw) is Ok ==> kept(raw).len() > 0 && code::verdict(
            kept(raw)[0],
            code::lowercase(kept(raw)[0]),
        ) is Ok,
{
}

/// A room identifier is 32 lowercase hexadecimal digits, and nothing else is.
pub proof fn law_what_a_room_id_is(bytes: Seq<u8>)
    ensures
        valid_room_id(bytes) <==> bytes.len() == 32 && forall|i: int|
            0 <= i < 32 ==> crate::text::hex_value(#[trigger] bytes[i] as char) < 16,
{
    assert(valid_room_id(bytes) ==> forall|i: int|
        0 <= i < 32 ==> is_hex_byte(#[trigger] bytes[i]));
    if bytes.len() == 32 && (forall|i: int|
        0 <= i < 32 ==> crate::text::hex_value(#[trigger] bytes[i] as char) < 16) {
        assert forall|i: int| 0 <= i < 32 implies is_hex_byte(#[trigger] bytes[i]) by {
            assert(crate::text::hex_value(bytes[i] as char) < 16);
        }
    }
}

/// What is returned is what the secrets derive, or why they derive nothing, and
/// a room that is derived has a valid identifier.
pub proof fn law_what_is_derived_is_returned(
    r: Result<Derived, Error>,
    d: Result<DerivedView, Error>,
)
    requires
        yields(r, d),
    ensures
        r is Ok <==> d is Ok,
        r matches Ok(out) ==> out.room_id@ == d->Ok_0.room_id && out.pake_pw@ == d->Ok_0.pake_pw
            && out.onion_seed_a@ == d->Ok_0.onion_seed_a && out.onion_seed_b@
            == d->Ok_0.onion_seed_b && valid_room_id(vstd::utf8::encode_utf8(out.room_id@)),
        r matches Err(e) ==> d == Err::<DerivedView, Error>(e),
{
}

} // verus!
