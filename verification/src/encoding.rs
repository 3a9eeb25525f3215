//! Bytes written as text: base32 and base64.

use vstd::prelude::*;
use base64::Engine;

verus! {

/// Bit `j` of a byte string, counted from the most significant bit of the
/// first byte. Past the end every bit is zero.
pub open spec fn bit(data: Seq<u8>, j: int) -> nat {
    if 0 <= j / 8 < data.len() {
        (data[j / 8] as nat / vstd::arithmetic::power2::pow2((7 - j % 8) as nat)) % 2
    } else {
        0
    }
}

/// The number that `n` bits from bit `from` spell.
pub open spec fn bits(data: Seq<u8>, from: int, n: nat) -> nat
    decreases n,
{
    if n == 0 {
        0
    } else {
        2 * bits(data, from, (n - 1) as nat) + bit(data, from + n - 1)
    }
}

/// The symbols of base32: `A`–`Z`, `2`–`7`.
pub open spec fn base32_symbol(v: nat) -> char {
    if v < 26 {
        (0x41 + v) as char
    } else {
        (0x32 + (v - 26)) as char
    }
}

/// Base32 (RFC 4648) without padding: one symbol for every five bits.
pub open spec fn base32(data: Seq<u8>) -> Seq<char> {
    Seq::new(((8 * data.len() + 4) / 5) as nat, |i: int| base32_symbol(bits(data, 5 * i, 5)))
}

/// The symbols of base64: `A`–`Z`, `a`–`z`, `0`–`9`, `+`, `/`.
pub open spec fn base64_symbol(v: nat) -> char {
    if v < 26 {
        (0x41 + v) as char
    } else if v < 52 {
        (0x61 + (v - 26)) as char
    } else if v < 62 {
        (0x30 + (v - 52)) as char
    } else if v == 62 {
        '+'
    } else {
        '/'
    }
}

/// Base64 (RFC 4648): one symbol for every six bits, and `=` to a multiple of
/// four symbols.
pub open spec fn base64(data: Seq<u8>) -> Seq<char> {
    Seq::new(
        (4 * ((data.len() + 2) / 3)) as nat,
        |i: int|
            if 6 * i < 8 * data.len() {
                base64_symbol(bits(data, 6 * i, 6))
            } else {
                '='
            },
    )
}

/// `data_encoding::BASE32_NOPAD.encode`: base32 without padding.
#[verifier::external_body]
pub(crate) fn base32_encode(data: &[u8]) -> (r: String)
    ensures
        r@ == base32(data@),
{
    data_encoding::BASE32_NOPAD.encode(data)
}

/// `encode` of `base64`'s `general_purpose::STANDARD`: base64 with padding.
#[verifier::external_body]
pub(crate) fn base64_encode(data: &[u8]) -> (r: String)
    ensures
        r@ == base64(data@),
{
    base64::engine::general_purpose::STANDARD.encode(data)
}

/// `decode` of `base64`'s `general_purpose::STANDARD`: the bytes that the text
/// is the base64 of, padding included, or nothing where there are none. Its
/// configuration takes neither missing padding nor stray bits behind the last
/// byte, so it decodes exactly what the encoder writes.
#[verifier::external_body]
pub(crate) fn base64_decode(text: &str) -> (r: Option<Vec<u8>>)
    ensures
        match r {
            Some(data) => text@ == base64(data@),
            None => forall|data: Seq<u8>| #[trigger] base64(data) != text@,
        },
{
    base64::engine::general_purpose::STANDARD.decode(text).ok()
}

/// Base32 symbols tell five bits apart, whatever their case.
proof fn lemma_base32_symbols_differ(v: nat, w: nat)
    requires
        v < 32,
        w < 32,
        crate::text::ascii_lower(base32_symbol(v)) == crate::text::ascii_lower(base32_symbol(w)),
    ensures
        v == w,
{
}

/// Different bytes of one length are written differently in base32, also where
/// capital letters are put in lower case.
pub proof fn law_base32_is_unambiguous(a: Seq<u8>, b: Seq<u8>)
    requires
        a.len() == b.len(),
        crate::text::ascii_lowercase(base32(a)) == crate::text::ascii_lowercase(base32(b)),
    ensures
        a == b,
{
    let lower_a = crate::text::ascii_lowercase(base32(a));
    let lower_b = crate::text::ascii_lowercase(base32(b));
    assert forall|k: int| 0 <= k < a.len() implies a[k] == b[k] by {
        assert forall|t: int| 0 <= t < 8 implies bit(a, 8 * k + t) == #[trigger] bit(
            b,
            8 * k + t,
        ) by {
            let j = 8 * k + t;
            let i = j / 5;
            assert(5 * i <= j < 8 * a.len());
            assert(0 <= i < base32(a).len());
            assert(lower_a[i] == crate::text::ascii_lower(base32_symbol(bits(a, 5 * i, 5))));
            assert(lower_b[i] == crate::text::ascii_lower(base32_symbol(bits(b, 5 * i, 5))));
            reveal_with_fuel(bits, 6);
            lemma_base32_symbols_differ(bits(a, 5 * i, 5), bits(b, 5 * i, 5));
            lemma_bits_determine_bit(a, b, 5 * i, 5, j - 5 * i);
        }
        lemma_bits_make_a_byte(a, b, k);
    }
    assert(a =~= b);
}

proof fn lemma_symbols_differ(v: nat, w: nat)
    requires
        v < 64,
        w < 64,
        base64_symbol(v) == base64_symbol(w),
    ensures
        v == w,
{
}

proof fn lemma_bits_bound(data: Seq<u8>, from: int)
    ensures
        bits(data, from, 6) < 64,
{
    reveal_with_fuel(bits, 7);
}

/// Numbers that are equal are spelled by the same bits.
proof fn lemma_bits_determine_bit(a: Seq<u8>, b: Seq<u8>, from: int, n: nat, k: int)
    requires
        bits(a, from, n) == bits(b, from, n),
        0 <= k < n,
    ensures
        bit(a, from + k) == bit(b, from + k),
    decreases n,
{
    if k < n - 1 {
        lemma_bits_determine_bit(a, b, from, (n - 1) as nat, k);
    }
}

/// Bytes of which every bit is equal are equal.
proof fn lemma_bits_make_a_byte(a: Seq<u8>, b: Seq<u8>, k: int)
    requires
        0 <= k < a.len(),
        0 <= k < b.len(),
        forall|t: int| 0 <= t < 8 ==> bit(a, 8 * k + t) == #[trigger] bit(b, 8 * k + t),
    ensures
        a[k] == b[k],
{
    vstd::arithmetic::power2::lemma2_to64();
    let x: u8 = a[k];
    let y: u8 = b[k];
    assert(bit(a, 8 * k + 0) == bit(b, 8 * k + 0));
    assert(bit(a, 8 * k + 1) == bit(b, 8 * k + 1));
    assert(bit(a, 8 * k + 2) == bit(b, 8 * k + 2));
    assert(bit(a, 8 * k + 3) == bit(b, 8 * k + 3));
    assert(bit(a, 8 * k + 4) == bit(b, 8 * k + 4));
    assert(bit(a, 8 * k + 5) == bit(b, 8 * k + 5));
    assert(bit(a, 8 * k + 6) == bit(b, 8 * k + 6));
    assert(bit(a, 8 * k + 7) == bit(b, 8 * k + 7));
    assert(x == y) by (bit_vector)
        requires
            (x / 128) % 2 == (y / 128) % 2,
            (x / 64) % 2 == (y / 64) % 2,
            (x / 32) % 2 == (y / 32) % 2,
            (x / 16) % 2 == (y / 16) % 2,
            (x / 8) % 2 == (y / 8) % 2,
            (x / 4) % 2 == (y / 4) % 2,
            (x / 2) % 2 == (y / 2) % 2,
            (x / 1) % 2 == (y / 1) % 2,
    ;
}

/// The padding tells how long the bytes are.
proof fn lemma_padding_tells_the_length(a: Seq<u8>, b: Seq<u8>)
    requires
        base64(a) == base64(b),
    ensures
        a.len() >= b.len(),
{
    if a.len() < b.len() {
        let i = (8 * a.len() as int + 5) / 6;
        assert(base64(a).len() == 4 * ((a.len() + 2) / 3));
        assert(base64(b).len() == 4 * ((b.len() + 2) / 3));
        assert(8 * a.len() <= 6 * i < 8 * b.len());
        assert(0 <= i < base64(a).len());
        assert(base64(a)[i] == '=');
        lemma_bits_bound(b, 6 * i);
        assert(base64(b)[i] == base64_symbol(bits(b, 6 * i, 6)));
        assert(base64_symbol(bits(b, 6 * i, 6)) != '=');
    }
}

/// Different bytes are written differently: a base64 text stands for one byte
/// string at most.
pub proof fn law_base64_is_unambiguous(a: Seq<u8>, b: Seq<u8>)
    requires
        base64(a) == base64(b),
    ensures
        a == b,
{
    lemma_padding_tells_the_length(a, b);
    lemma_padding_tells_the_length(b, a);
    assert forall|k: int| 0 <= k < a.len() implies a[k] == b[k] by {
        assert forall|t: int| 0 <= t < 8 implies bit(a, 8 * k + t) == #[trigger] bit(
            b,
            8 * k + t,
        ) by {
            let j = 8 * k + t;
            let i = j / 6;
            assert(6 * i <= j < 8 * a.len());
            assert(0 <= i < base64(a).len());
            assert(base64(a)[i] == base64_symbol(bits(a, 6 * i, 6)));
            assert(base64(b)[i] == base64_symbol(bits(b, 6 * i, 6)));
            lemma_bits_bound(a, 6 * i);
            lemma_bits_bound(b, 6 * i);
            lemma_symbols_differ(bits(a, 6 * i, 6), bits(b, 6 * i, 6));
            lemma_bits_determine_bit(a, b, 6 * i, 6, j - 6 * i);
        }
        lemma_bits_make_a_byte(a, b, k);
    }
    assert(a =~= b);
}

} // verus!
