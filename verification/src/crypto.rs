//! The cryptographic primitives the protocol is built from.
//!
//! None is implemented here: each function below hands its arguments to the
//! crate that implements it.

use vstd::prelude::*;
use argon2::{Algorithm, Argon2, Params, Version};
use chacha20poly1305::aead::{Aead, KeyInit, Payload};
use chacha20poly1305::ChaCha20Poly1305;
use hkdf::Hkdf;
use sha2::Sha256;
use subtle::ConstantTimeEq;

verus! {

/// The UTF-8 bytes of a label that separates one use of a primitive from
/// another.
pub open spec fn label(text: &str) -> Seq<u8> {
    vstd::utf8::encode_utf8(text@)
}

/// The 64 bytes that Argon2id (version 0x13) makes of a password, or `None`
/// where the `argon2` crate refuses its arguments.
pub uninterp spec fn argon2id(
    password: Seq<u8>,
    salt: Seq<u8>,
    mem_kib: u32,
    time: u32,
    lanes: u32,
) -> Option<Seq<u8>>;

/// `argon2::Argon2::hash_password_into`, for Argon2id with the given costs and
/// 64 bytes of output.
///
/// The result is a function of the arguments. The crate refuses a password of
/// more than `u32::MAX` bytes, a salt shorter than eight bytes or longer than
/// `u32::MAX`, and costs that are too small; nothing else. The number of lanes
/// is bounded so that the crate can multiply it, and the memory so that it can
/// be one allocation.
#[verifier::external_body]
pub(crate) fn argon2id_hash(
    password: &[u8],
    salt: &[u8],
    mem_kib: u32,
    time: u32,
    lanes: u32,
) -> (r: Option<[u8; 64]>)
    requires
        lanes <= 0xff_ffff,
        mem_kib <= 0x1f_ffff,
    ensures
        match r {
            Some(out) => argon2id(password@, salt@, mem_kib, time, lanes) == Some(out@),
            None => argon2id(password@, salt@, mem_kib, time, lanes) is None,
        },
        password@.len() <= u32::MAX && 8 <= salt@.len() <= u32::MAX && 8 <= mem_kib && 8 * lanes
            <= mem_kib && 1 <= time && 1 <= lanes ==> r is Some,
{
    let params = Params::new(mem_kib, time, lanes, Some(64)).ok()?;
    let argon = Argon2::new(Algorithm::Argon2id, Version::V0x13, params);
    let mut out = [0u8; 64];
    argon.hash_password_into(password, salt, &mut out).ok()?;
    Some(out)
}

/// `len` bytes of HKDF-SHA256: extract with `salt` from `ikm`, then expand with
/// `info`.
pub uninterp spec fn hkdf_sha256(
    salt: Option<Seq<u8>>,
    ikm: Seq<u8>,
    info: Seq<u8>,
    len: nat,
) -> Seq<u8>;

/// The salt as the specification of HKDF takes it.
pub open spec fn salt_view(salt: Option<&[u8]>) -> Option<Seq<u8>> {
    match salt {
        Some(s) => Some(s@),
        None => None,
    }
}

/// `hkdf::Hkdf::<Sha256>::new` followed by `Hkdf::expand`.
///
/// The output is a function of the arguments and its length. The crate refuses
/// to expand to more than 255 blocks of 32 bytes, and nothing else.
#[verifier::external_body]
pub(crate) fn hkdf_expand<const N: usize>(salt: Option<&[u8]>, ikm: &[u8], info: &[u8]) -> (r:
    Option<[u8; N]>)
    ensures
        r is Some <==> N <= 255 * 32,
        r matches Some(out) ==> out@ == hkdf_sha256(salt_view(salt), ikm@, info@, N as nat),
{
    let mut out = [0u8; N];
    Hkdf::<Sha256>::new(salt, ikm).expand(info, &mut out).ok()?;
    Some(out)
}

/// The ciphertext and tag that ChaCha20-Poly1305 makes of a plaintext, or
/// `None` where the plaintext is too long for the cipher.
pub uninterp spec fn chacha_sealed(
    key: Seq<u8>,
    nonce: Seq<u8>,
    aad: Seq<u8>,
    plaintext: Seq<u8>,
) -> Option<Seq<u8>>;

/// The plaintext that ChaCha20-Poly1305 finds in a ciphertext and its tag, or
/// `None` where the tag is not authentic.
pub uninterp spec fn chacha_opened(
    key: Seq<u8>,
    nonce: Seq<u8>,
    aad: Seq<u8>,
    ciphertext: Seq<u8>,
) -> Option<Seq<u8>>;

/// The longest plaintext that ChaCha20-Poly1305 takes: what is left of a key
/// stream of `u32::MAX` blocks of 64 bytes behind the block that makes the
/// tag's key.
pub const MAX_CIPHER_TEXT: u64 = 274_877_906_816;

/// The length of a ChaCha20-Poly1305 tag.
pub const TAG_LEN: usize = 16;

/// `chacha20poly1305`'s `Aead::encrypt`.
///
/// The result is a function of the arguments: the plaintext's length and a tag
/// of 16 bytes long, and it opens to the plaintext again under the same key,
/// nonce and associated data. The key stream ends behind [`MAX_CIPHER_TEXT`]
/// bytes, where the crate panics; up to there it does not fail.
#[verifier::external_body]
pub(crate) fn chacha_seal(key: &[u8; 32], nonce: &[u8; 12], aad: &[u8], plaintext: &[u8]) -> (r:
    Option<Vec<u8>>)
    requires
        plaintext@.len() <= MAX_CIPHER_TEXT,
    ensures
        r is Some,
        chacha_sealed(key@, nonce@, aad@, plaintext@) == Some(r->0@),
        r->0@.len() == plaintext@.len() + TAG_LEN,
        chacha_opened(key@, nonce@, aad@, r->0@) == Some(plaintext@),
{
    let cipher = ChaCha20Poly1305::new_from_slice(key).ok()?;
    cipher.encrypt(&(*nonce).into(), Payload { msg: plaintext, aad }).ok()
}

/// `chacha20poly1305`'s `Aead::decrypt`.
///
/// The result is a function of the arguments: the plaintext, or nothing where
/// authentication fails. The crate panics on an authentic ciphertext that is
/// longer than the key stream.
#[verifier::external_body]
pub(crate) fn chacha_open(key: &[u8; 32], nonce: &[u8; 12], aad: &[u8], ciphertext: &[u8]) -> (r:
    Option<Vec<u8>>)
    requires
        ciphertext@.len() <= MAX_CIPHER_TEXT + TAG_LEN,
    ensures
        match r {
            Some(pt) => chacha_opened(key@, nonce@, aad@, ciphertext@) == Some(pt@),
            None => chacha_opened(key@, nonce@, aad@, ciphertext@) is None,
        },
{
    let cipher = ChaCha20Poly1305::new_from_slice(key).ok()?;
    cipher.decrypt(&(*nonce).into(), Payload { msg: ciphertext, aad }).ok()
}

/// `subtle`'s `ct_eq` on byte slices: whether they are equal, in a time that
/// does not depend on what they hold.
#[verifier::external_body]
pub(crate) fn ct_equal(a: &[u8], b: &[u8]) -> (r: bool)
    ensures
        r == (a@ == b@),
{
    a.ct_eq(b).into()
}

} // verus!
