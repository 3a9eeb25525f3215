//! Deriving a v3 onion identity from a room secret, with no Tor library.
//!
//! Everything here is plain ed25519 plus two hashes. The resulting address is
//! identical to the one that [`crate::identity`] computes with Tor's own
//! library, which means that the choice of Tor engine does not change where two
//! peers meet.

use vstd::prelude::*;
use sha2::{Digest, Sha512};
use crate::encoding::{base32_encode, base64_encode};
use crate::kdf::Derived;
use crate::secret::{Secret, SecretText};
use crate::text::push_ascii_lowercase;

verus! {

/// `.onion` version byte for v3 addresses.
pub const ONION_VERSION: u8 = 0x03;

pub const CHECKSUM_LABEL: &'static str = ".onion checksum";

/// A code-derived onion service identity.
///
/// Held in memory only and never written to disk.
pub struct OnionKey {
    /// `<56 base32 chars>.onion`
    pub address: String,
    /// Expanded ed25519 secret key (scalar ‖ hash prefix), base64.
    ///
    /// This is exactly the blob Tor's `ADD_ONION ED25519-V3:` expects. Erased
    /// when the key goes out of scope.
    pub control_blob: SecretText,
}

/// The SHA-512 hash of some bytes.
pub uninterp spec fn sha512(data: Seq<u8>) -> Seq<u8>;

/// `sha2::Sha512::digest`: a function of the bytes.
#[verifier::external_body]
fn sha512_digest(data: &[u8]) -> (r: [u8; 64])
    ensures
        r@ == sha512(data@),
{
    Sha512::digest(data).into()
}

/// The SHA3-256 hash of some bytes.
pub uninterp spec fn sha3_256(data: Seq<u8>) -> Seq<u8>;

/// `sha3::Sha3_256::digest`: a function of the bytes.
#[verifier::external_body]
fn sha3_256_digest(data: &[u8]) -> (r: [u8; 32])
    ensures
        r@ == sha3_256(data@),
{
    sha3::Sha3_256::digest(data).into()
}

/// The ed25519 public key that belongs to a secret seed.
pub uninterp spec fn ed25519_public(seed: Seq<u8>) -> Seq<u8>;

/// `ed25519_dalek::SigningKey::from_bytes` and the bytes of its
/// `verifying_key`: a function of the seed.
#[verifier::external_body]
fn public_key(seed: &[u8; 32]) -> (r: [u8; 32])
    ensures
        r@ == ed25519_public(seed@),
{
    ed25519_dalek::SigningKey::from_bytes(seed).verifying_key().to_bytes()
}

/// A hash with the usual clamping of its low half.
pub open spec fn clamped(hash: Seq<u8>) -> Seq<u8> {
    hash.update(0, hash[0] & 248).update(31, (hash[31] & 127) | 64)
}

/// Expand a 32-byte seed into ed25519's `(scalar ‖ hash_prefix)` form.
///
/// This is the standard expansion: SHA-512 of the seed with the usual clamping
/// of the low half. Tor stores onion service keys in this expanded form, which
/// is why `ADD_ONION` wants 64 bytes rather than the 32-byte seed.
fn expand_secret(seed: &[u8; 32]) -> (r: Secret<64>)
    ensures
        r@ == clamped(sha512(seed@)),
        r@.len() == 64,
{
    let hash: [u8; 64] = sha512_digest(seed.as_slice());
    clamp(hash)
}

/// Clamp the low half of a hash, as ed25519 does.
pub fn clamp(hash: [u8; 64]) -> (r: Secret<64>)
    ensures
        r@ == clamped(hash@),
        r@.len() == 64,
{
    let mut out: [u8; 64] = hash;
    out[0] = out[0] & 248;
    out[31] = (out[31] & 127) | 64;
    assert(out@ =~= clamped(hash@));
    Secret::new(out)
}

/// What the checksum of an address is computed over.
pub open spec fn checksum_input(pubkey: Seq<u8>) -> Seq<u8> {
    crate::text::utf8(CHECKSUM_LABEL@) + pubkey + seq![ONION_VERSION]
}

/// The bytes an address spells: key, checksum, version.
pub open spec fn address_bytes(pubkey: Seq<u8>, hash: Seq<u8>) -> Seq<u8> {
    pubkey + hash.take(2) + seq![ONION_VERSION]
}

/// An address as it is written.
pub open spec fn address_text(bytes: Seq<u8>) -> Seq<char> {
    crate::text::ascii_lowercase(crate::encoding::base32(bytes)) + ".onion"@
}

/// The onion address of a public key:
/// `base32(pubkey ‖ checksum ‖ version).onion`.
pub open spec fn onion_address_of(pubkey: Seq<u8>) -> Seq<char> {
    address_text(address_bytes(pubkey, sha3_256(checksum_input(pubkey))))
}

/// `base32(pubkey ‖ checksum ‖ version)`, where the checksum is the first two
/// bytes of `SHA3-256(".onion checksum" ‖ pubkey ‖ version)`.
fn onion_address(pubkey: &[u8; 32]) -> (r: String)
    ensures
        r@ == onion_address_of(pubkey@),
        r@.len() == 62,
{
    let mut input: Vec<u8> = Vec::new();
    input.extend_from_slice(CHECKSUM_LABEL.as_bytes());
    input.extend_from_slice(pubkey.as_slice());
    input.push(ONION_VERSION);
    assert(input@ =~= checksum_input(pubkey@));
    let hash: [u8; 32] = sha3_256_digest(input.as_slice());
    write_address(pubkey, &hash)
}

/// Write the address of a public key, given the hash its checksum is taken
/// from.
pub fn write_address(pubkey: &[u8; 32], hash: &[u8; 32]) -> (r: String)
    ensures
        r@ == address_text(address_bytes(pubkey@, hash@)),
        r@.len() == 62,
{
    let mut buf: Vec<u8> = Vec::new();
    buf.extend_from_slice(pubkey.as_slice());
    buf.push(hash[0]);
    buf.push(hash[1]);
    buf.push(ONION_VERSION);
    assert(buf@ =~= address_bytes(pubkey@, hash@));
    let encoded: String = base32_encode(buf.as_slice());
    let mut r: String = String::new();
    push_ascii_lowercase(&mut r, encoded.as_str());
    r.append(".onion");
    proof {
        reveal_strlit(".onion");
        assert(r@ =~= address_text(buf@));
    }
    r
}

/// What a seed derives: the address of its public key, and its expanded secret
/// key as Tor's control port takes it.
pub open spec fn is_onion_key(key: OnionKey, seed: Seq<u8>) -> bool {
    &&& key.address@ == onion_address_of(ed25519_public(seed))
    &&& key.control_blob@ == crate::encoding::base64(clamped(sha512(seed)))
}

/// Derive the onion identity both peers meet at, from the room secrets.
pub fn onion_key(derived: &Derived) -> (key: OnionKey)
    ensures
        is_onion_key(key, derived.onion_seed_a@),
        key.address@.len() == 62,
        key.control_blob@.len() == 88,
{
    let seed: &[u8; 32] = derived.onion_seed_a.as_ref();
    let pubkey: [u8; 32] = public_key(seed);
    let secret: Secret<64> = expand_secret(seed);
    OnionKey {
        address: onion_address(&pubkey),
        control_blob: SecretText::new(base64_encode(secret.as_ref().as_slice())),
    }
}

/// An address names one public key: whatever their checksums are, different
/// keys never have one address.
pub proof fn law_an_address_names_one_key(
    key: Seq<u8>,
    hash: Seq<u8>,
    other_key: Seq<u8>,
    other_hash: Seq<u8>,
)
    requires
        key.len() == 32,
        hash.len() == 32,
        other_key.len() == 32,
        other_hash.len() == 32,
        address_text(address_bytes(key, hash)) == address_text(
            address_bytes(other_key, other_hash),
        ),
    ensures
        key == other_key,
{
    let bytes = address_bytes(key, hash);
    let other_bytes = address_bytes(other_key, other_hash);
    let text = crate::text::ascii_lowercase(crate::encoding::base32(bytes));
    let other_text = crate::text::ascii_lowercase(crate::encoding::base32(other_bytes));
    assert(text =~= address_text(bytes).take(text.len() as int));
    assert(other_text =~= address_text(other_bytes).take(other_text.len() as int));
    crate::encoding::law_base32_is_unambiguous(bytes, other_bytes);
    assert(key =~= bytes.take(32));
    assert(other_key =~= other_bytes.take(32));
}

/// What an onion key shows of itself in a log: that it exists.
pub const REDACTED_KEY: &'static str =
    "OnionKey { address: \"<redacted>.onion\", control_blob: \"<redacted>\" }";

impl OnionKey {
    /// The key as it may be shown in a log. The address is as sensitive as the
    /// room secret it comes from, so neither it nor the key appears.
    pub fn to_debug(&self) -> (text: String)
        ensures
            text@ == REDACTED_KEY@,
    {
        REDACTED_KEY.to_owned()
    }
}

/// How an address is written: 56 characters of base32 in lower case for the
/// public key, the first two bytes of the SHA3-256 of label, key and version,
/// and the version, then the suffix.
pub proof fn law_addresses_are_laid_out(pubkey: Seq<u8>)
    requires
        pubkey.len() == 32,
        sha3_256(
            vstd::utf8::encode_utf8(".onion checksum"@) + pubkey + seq![3u8],
        ).len() == 32,
    ensures
        ({
            let hash = sha3_256(
                vstd::utf8::encode_utf8(".onion checksum"@) + pubkey + seq![3u8],
            );
            let bytes = pubkey + seq![hash[0], hash[1], 3u8];
            &&& onion_address_of(pubkey) == crate::text::ascii_lowercase(
                crate::encoding::base32(bytes),
            ) + ".onion"@
            &&& onion_address_of(pubkey).len() == 62
        }),
{
    reveal_strlit(".onion");
    let hash = sha3_256(checksum_input(pubkey));
    assert(address_bytes(pubkey, hash) =~= pubkey + seq![hash[0], hash[1], 3u8]);
}

/// Clamping makes the low half of a hash a scalar: the three lowest bits of its
/// first byte are cleared, the highest bit of its last byte is cleared and the
/// one below it set, and every other bit stays.
pub proof fn law_clamping_changes_five_bits(hash: Seq<u8>, i: int)
    requires
        hash.len() == 64,
        0 <= i < 64,
    ensures
        clamped(hash).len() == 64,
        clamped(hash)[0] == hash[0] - hash[0] % 8,
        clamped(hash)[31] == 64 + hash[31] % 64,
        i != 0 && i != 31 ==> clamped(hash)[i] == hash[i],
{
    let a = hash[0];
    let b = hash[31];
    assert(a & 248 == a - a % 8) by (bit_vector);
    assert((b & 127) | 64 == 64 + b % 64) by (bit_vector);
}

/// What a seed makes: the address of its public key, and its expanded secret
/// key in base64.
pub proof fn law_what_a_seed_makes(key: OnionKey, seed: Seq<u8>)
    requires
        is_onion_key(key, seed),
    ensures
        key.address@ == onion_address_of(ed25519_public(seed)),
        key.control_blob@ == crate::encoding::base64(clamped(sha512(seed))),
{
}

} // verus!
