//! Room code generation, normalization, and validation.

use vstd::prelude::*;
use unicode_normalization::UnicodeNormalization;
use crate::error::Error;
use crate::secret::Secret;
use crate::text::{chars_of, same_chars, string_of, trim};

verus! {

/// Minimum length for a hand-typed code.
pub const MIN_CODE_LEN: usize = 10;

/// Minimum number of distinct characters. Rejects `aaaaaaaaaa`.
pub const MIN_DISTINCT: usize = 6;

/// Ambiguity-free alphabet: A–Z without `I`/`O`, plus `2`–`9`, as ASCII.
///
/// Exactly 32 characters, which matters: 256 is a multiple of 32, so mapping a
/// uniform random byte to its residue is itself uniform. No rejection sampling
/// and no modulo bias.
pub const ALPHABET: [u8; 32] = [
    0x41,
    0x42,
    0x43,
    0x44,
    0x45,
    0x46,
    0x47,
    0x48,
    0x4a,
    0x4b,
    0x4c,
    0x4d,
    0x4e,
    0x50,
    0x51,
    0x52,
    0x53,
    0x54,
    0x55,
    0x56,
    0x57,
    0x58,
    0x59,
    0x5a,
    0x32,
    0x33,
    0x34,
    0x35,
    0x36,
    0x37,
    0x38,
    0x39,
];

/// Length of a generated code: 26 × 5 bits = 130 bits of entropy.
pub const GENERATED_LEN: usize = 26;

/// Codes so common they are worthless as secrets, despite passing the
/// structural checks. Compared after normalization, case-insensitively.
pub const WEAK_LIST: [&'static str; 13] = [
    "password12",
    "password123",
    "1234567890",
    "0123456789",
    "qwertyuiop",
    "abcdefghij",
    "letmeinnow",
    "narcotest1",
    "testtest12",
    "aaaaaaaaaa",
    "1111111111",
    "changeme12",
    "secretcode",
];

/// A text in Unicode normalization form C.
pub uninterp spec fn nfc(s: Seq<char>) -> Seq<char>;

/// `unicode_normalization`'s `nfc`, collected: a function of the text. ASCII
/// text is in that form already, and so is whatever comes out. No character
/// turns into white space but white space, and white space stays in its place,
/// so a text that has none at its ends is not given any.
#[verifier::external_body]
fn to_nfc(s: &str) -> (r: String)
    ensures
        r@ == nfc(s@),
        s.is_ascii() ==> r@ == s@,
        nfc(r@) == r@,
        s@.len() > 0 && crate::text::has_bare_ends(s@) ==> r@.len() > 0
            && crate::text::has_bare_ends(r@),
{
    s.nfc().collect()
}

/// A text in lower case.
pub uninterp spec fn lowercase(s: Seq<char>) -> Seq<char>;

/// `str::to_lowercase`: a function of the text. On ASCII text it changes the
/// 26 capital letters and nothing else.
#[verifier::external_body]
fn to_lowercase(s: &str) -> (r: String)
    ensures
        r@ == lowercase(s@),
        s.is_ascii() ==> r@ == crate::text::ascii_lowercase(s@),
{
    s.to_lowercase()
}

/// `getrandom::fill`: bytes from the operating system's random source, or
/// nothing where it has none to give. Nothing is claimed of the bytes.
#[verifier::external_body]
fn random_bytes<const N: usize>() -> (r: Option<[u8; N]>) {
    let mut buf = [0u8; N];
    getrandom::fill(&mut buf).ok()?;
    Some(buf)
}

/// The code that 26 bytes of entropy spell.
pub open spec fn spelled(entropy: Seq<u8>) -> Seq<char> {
    Seq::new(entropy.len(), |i: int| ALPHABET@[entropy[i] as int % 32] as char)
}

/// Spell a code from entropy: five bits of each byte pick one character.
pub fn code_from_entropy(entropy: &[u8; GENERATED_LEN]) -> (code: String)
    ensures
        code@ == spelled(entropy@),
{
    let mut code: String = String::new();
    let mut i: usize = 0;
    while i < GENERATED_LEN
        invariant
            i <= GENERATED_LEN == entropy@.len(),
            code@ == spelled(entropy@).take(i as int),
        decreases GENERATED_LEN - i,
    {
        code.push(ALPHABET[(entropy[i] % 32) as usize] as char);
        i = i + 1;
        assert(spelled(entropy@).take(i as int) =~= spelled(entropy@).take(i - 1).push(
            spelled(entropy@)[i - 1],
        ));
    }
    assert(spelled(entropy@).take(i as int) =~= spelled(entropy@));
    code
}

/// The code for what the operating system's random source gave: the one that
/// the bytes spell, or none where there are no bytes. The bytes are erased.
pub fn code_from_random(random: Option<[u8; GENERATED_LEN]>) -> (r: Option<String>)
    ensures
        match random {
            Some(entropy) => r matches Some(code) && code@ == spelled(entropy@),
            None => r is None,
        },
{
    match random {
        None => None,
        Some(entropy) => {
            let entropy: Secret<GENERATED_LEN> = Secret::new(entropy);
            Some(code_from_entropy(entropy.as_ref()))
        },
    }
}

/// Generate a fresh 130-bit code from the OS CSPRNG.
///
/// `None` means that the operating system has no random numbers to give, and
/// there is no safe way to go on. Whether it has is not this function's to
/// say; what becomes of either answer, [`code_from_random`] says.
pub fn generate() -> (r: Option<String>)
    ensures
        r matches Some(code) ==> exists|entropy: Seq<u8>|
            entropy.len() == GENERATED_LEN && code@ == #[trigger] spelled(entropy),
        r matches Some(code) ==> code@.len() == 26,
{
    let random: Option<[u8; GENERATED_LEN]> = random_bytes::<GENERATED_LEN>();
    let r: Option<String> = code_from_random(random);
    assert(r matches Some(code) ==> code@ == spelled(random->0@));
    r
}

/// The form in which a secret is used: trimmed, then in NFC. What is nothing
/// but white space comes to nothing.
pub open spec fn normalized(code: Seq<char>) -> Seq<char> {
    let rest = crate::text::trimmed(code);
    if rest.len() == 0 {
        rest
    } else {
        nfc(rest)
    }
}

/// Trim surrounding whitespace and apply NFC so both devices agree on bytes.
///
/// Case is deliberately preserved: folding it would throw away entropy from
/// hand-typed codes. Normalizing twice is the same as normalizing once.
pub fn normalize(code: &str) -> (r: String)
    ensures
        r@ == normalized(code@),
        code.is_ascii() ==> r@ == crate::text::trimmed(code@),
        crate::text::has_bare_ends(r@),
        normalized(r@) == r@,
{
    let chars: Vec<char> = chars_of(code);
    let trimmed: String = string_of(trim(chars.as_slice()));
    proof {
        crate::text::lemma_trimmed_has_bare_ends(code@);
        if code.is_ascii() {
            crate::text::lemma_trimmed_is_ascii(code@);
        }
    }
    if trimmed.as_str().is_empty() {
        trimmed
    } else {
        let r: String = to_nfc(trimmed.as_str());
        proof {
            crate::text::lemma_bare_ends_stay(r@);
        }
        r
    }
}

/// White space around a secret changes nothing.
pub proof fn law_surrounding_white_space_is_ignored(
    before: Seq<char>,
    code: Seq<char>,
    after: Seq<char>,
)
    requires
        crate::text::is_blank(before),
        crate::text::is_blank(after),
    ensures
        normalized(before + code + after) == normalized(code),
{
    crate::text::lemma_trimmed_drops_blank(before, code, after);
}

/// Secrets that are canonically equivalent, which is to say that their texts
/// have one NFC, come to the same bytes on both devices.
pub proof fn law_equivalent_secrets_agree(a: Seq<char>, b: Seq<char>)
    requires
        nfc(crate::text::trimmed(a)) == nfc(crate::text::trimmed(b)),
        crate::text::trimmed(a).len() == 0 <==> crate::text::trimmed(b).len() == 0,
    ensures
        normalized(a) == normalized(b),
{
    if crate::text::trimmed(a).len() == 0 {
        assert(crate::text::trimmed(a) =~= crate::text::trimmed(b));
    }
}

/// Every adjacent pair steps by a constant ±1, e.g. `abcdefghij`.
pub open spec fn is_run(chars: Seq<char>) -> bool {
    &&& chars.len() >= 2
    &&& {
        ||| forall|i: int|
            1 <= i < chars.len() ==> (#[trigger] chars[i]) as int == chars[i - 1] as int + 1
        ||| forall|i: int|
            1 <= i < chars.len() ==> (#[trigger] chars[i]) as int == chars[i - 1] as int - 1
    }
}

/// A word of the weak list.
pub open spec fn is_weak(word: Seq<char>) -> bool {
    exists|i: int| 0 <= i < WEAK_LIST@.len() && word == (#[trigger] WEAK_LIST@[i])@
}

/// Whether a code may be used, and if not, the first rule it breaks. `lower`
/// is the code in lower case.
pub open spec fn verdict(code: Seq<char>, lower: Seq<char>) -> Result<(), Error> {
    if code.len() < MIN_CODE_LEN {
        Err(Error::CodeTooShort)
    } else if code.to_set().len() < MIN_DISTINCT {
        Err(Error::CodeTooRepetitive)
    } else if is_run(code) {
        Err(Error::CodeSequential)
    } else if is_weak(lower) {
        Err(Error::CodeWeak)
    } else {
        Ok(())
    }
}

/// Validate a normalized code.
pub fn validate(code: &str) -> (r: Result<(), Error>)
    ensures
        r == verdict(code@, lowercase(code@)),
        code.is_ascii() ==> r == verdict(code@, crate::text::ascii_lowercase(code@)),
{
    let lower: String = to_lowercase(code);
    validate_with(code, lower.as_str())
}

/// Validate a normalized code, given the same code in lower case.
pub fn validate_with(code: &str, lower: &str) -> (r: Result<(), Error>)
    ensures
        r == verdict(code@, lower@),
{
    let chars: Vec<char> = chars_of(code);
    if chars.len() < MIN_CODE_LEN {
        return Err(Error::CodeTooShort);
    }
    if count_distinct(chars.as_slice()) < MIN_DISTINCT {
        return Err(Error::CodeTooRepetitive);
    }
    if is_monotonic_run(chars.as_slice()) {
        return Err(Error::CodeSequential);
    }
    if in_weak_list(lower) {
        return Err(Error::CodeWeak);
    }
    Ok(())
}

/// How many different characters there are.
fn count_distinct(chars: &[char]) -> (n: usize)
    ensures
        n == chars@.to_set().len(),
{
    let mut seen: Vec<char> = Vec::new();
    let mut i: usize = 0;
    assert(seen@.to_set() =~= chars@.take(0).to_set());
    while i < chars.len()
        invariant
            i <= chars@.len(),
            seen@.no_duplicates(),
            seen@.to_set() == chars@.take(i as int).to_set(),
        decreases chars@.len() - i,
    {
        let c: char = chars[i];
        let mut j: usize = 0;
        while j < seen.len() && seen[j] != c
            invariant
                j <= seen@.len(),
                forall|k: int| 0 <= k < j ==> seen@[k] != c,
            decreases seen@.len() - j,
        {
            j = j + 1;
        }
        let ghost before = chars@.take(i as int);
        let ghost after = chars@.take(i + 1);
        let ghost had = seen@;
        proof {
            assert(after =~= before.push(c));
            assert forall|x: char| after.to_set().contains(x) <==> before.to_set().contains(x) || x
                == c by {
                if before.contains(x) {
                    let k = choose|k: int| 0 <= k < before.len() && before[k] == x;
                    assert(after[k] == x);
                }
                assert(after[i as int] == c);
            }
        }
        if j == seen.len() {
            seen.push(c);
            proof {
                assert forall|x: char| seen@.to_set().contains(x) <==> had.to_set().contains(x) || x
                    == c by {
                    if had.contains(x) {
                        let k = choose|k: int| 0 <= k < had.len() && had[k] == x;
                        assert(seen@[k] == x);
                    }
                    assert(seen@[had.len() as int] == c);
                }
            }
        } else {
            assert(had.to_set().contains(c)) by {
                assert(had[j as int] == c);
            }
        }
        assert(seen@.to_set() =~= after.to_set());
        i = i + 1;
    }
    proof {
        assert(chars@.take(i as int) =~= chars@);
        seen@.unique_seq_to_set();
    }
    seen.len()
}

/// The code point of a character.
fn code_point(c: char) -> (n: i64)
    ensures
        n == c as int,
        0 <= n <= 0x10_ffff,
{
    proof {
        vstd::utf8::char_is_scalar(c);
    }
    c as u32 as i64
}

/// True if every adjacent pair steps by a constant ±1, e.g. `abcdefghij`.
fn is_monotonic_run(chars: &[char]) -> (run: bool)
    ensures
        run == is_run(chars@),
{
    if chars.len() < 2 {
        return false;
    }
    let step: i64 = code_point(chars[1]) - code_point(chars[0]);
    if step != 1 && step != -1 {
        assert(chars@[1] as int - chars@[0] as int == step);
        return false;
    }
    let mut i: usize = 1;
    while i < chars.len()
        invariant
            1 <= i <= chars@.len(),
            chars@.len() >= 2,
            step == chars@[1] as int - chars@[0] as int,
            step == 1 || step == -1,
            forall|j: int| 1 <= j < i ==> (#[trigger] chars@[j]) as int == chars@[j - 1] as int + step,
        decreases chars@.len() - i,
    {
        if code_point(chars[i]) - code_point(chars[i - 1]) != step {
            assert(chars@[i as int] as int != chars@[i - 1] as int + step);
            assert(chars@[1] as int == chars@[0] as int + step);
            return false;
        }
        i = i + 1;
    }
    true
}

/// Whether `word` is on the weak list.
fn in_weak_list(word: &str) -> (weak: bool)
    ensures
        weak == is_weak(word@),
{
    let word_chars: Vec<char> = chars_of(word);
    let mut i: usize = 0;
    while i < 13
        invariant
            i <= 13,
            word_chars@ == word@,
            forall|j: int| 0 <= j < i ==> word@ != (#[trigger] WEAK_LIST@[j])@,
        decreases 13 - i,
    {
        let entry: Vec<char> = chars_of(WEAK_LIST[i]);
        if same_chars(word_chars.as_slice(), entry.as_slice()) {
            assert(word@ == WEAK_LIST@[i as int]@);
            return true;
        }
        i = i + 1;
    }
    false
}

/// Every generated code has 26 characters, all of the alphabet.
pub proof fn law_generated_codes_use_the_alphabet(entropy: Seq<u8>)
    requires
        entropy.len() == GENERATED_LEN,
    ensures
        spelled(entropy).len() == GENERATED_LEN,
        vstd::utf8::is_ascii_chars(spelled(entropy)),
        forall|i: int|
            0 <= i < GENERATED_LEN ==> exists|k: int|
                0 <= k < 32 && #[trigger] spelled(entropy)[i] == (#[trigger] ALPHABET@[k]) as char,
{
    assert forall|i: int| 0 <= i < spelled(entropy).len() implies '\0' <= #[trigger] spelled(
        entropy,
    )[i] <= '\u{7f}' by {
        lemma_alphabet_chars(entropy, i);
    }
    assert forall|i: int| 0 <= i < GENERATED_LEN implies exists|k: int|
        0 <= k < 32 && #[trigger] spelled(entropy)[i] == (#[trigger] ALPHABET@[k]) as char by {
        assert(spelled(entropy)[i] == ALPHABET@[entropy[i] as int % 32] as char);
    }
}

/// No two characters of the alphabet are the same, so entropy that differs in
/// the five bits it uses spells a different code.
pub proof fn law_different_entropy_spells_different_codes(a: Seq<u8>, b: Seq<u8>, i: int)
    requires
        a.len() == GENERATED_LEN,
        b.len() == GENERATED_LEN,
        0 <= i < GENERATED_LEN,
        a[i] % 32 != b[i] % 32,
    ensures
        spelled(a) != spelled(b),
{
    let x = a[i] as int % 32;
    let y = b[i] as int % 32;
    assert(ALPHABET@[x] != ALPHABET@[y]);
    assert(spelled(a)[i] == ALPHABET@[x] as char);
    assert(spelled(b)[i] == ALPHABET@[y] as char);
}

proof fn lemma_run_is_linear(s: Seq<char>, step: int, n: int)
    requires
        0 <= n < s.len(),
        forall|i: int| 1 <= i < s.len() ==> (#[trigger] s[i]) as int == s[i - 1] as int + step,
    ensures
        s[n] as int == s[0] as int + n * step,
    decreases n,
{
    if n > 0 {
        lemma_run_is_linear(s, step, n - 1);
        assert(n * step == (n - 1) * step + step) by (nonlinear_arith);
    } else {
        assert(0 * step == 0) by (nonlinear_arith);
    }
}

proof fn lemma_alphabet_chars(entropy: Seq<u8>, i: int)
    requires
        0 <= i < entropy.len(),
    ensures
        ({
            let n = spelled(entropy)[i] as int;
            0x32 <= n <= 0x39 || 0x41 <= n <= 0x48 || 0x4a <= n <= 0x4e || 0x50 <= n <= 0x5a
        }),
{
    let k = entropy[i] as int % 32;
    assert(spelled(entropy)[i] == ALPHABET@[k] as char);
}

/// A generated code is refused only where chance made it too repetitive: it is
/// never too short, never a sequence and never on the weak list.
pub proof fn law_generated_codes_are_refused_only_for_repetition(entropy: Seq<u8>)
    requires
        entropy.len() == GENERATED_LEN,
    ensures
        verdict(spelled(entropy), crate::text::ascii_lowercase(spelled(entropy))) == (if spelled(
            entropy,
        ).to_set().len() < MIN_DISTINCT {
            Err::<(), Error>(Error::CodeTooRepetitive)
        } else {
            Ok(())
        }),
{
    let code = spelled(entropy);
    if is_run(code) {
        assert forall|i: int| 0 <= i < 26 implies ({
            let n = #[trigger] code[i] as int;
            0x32 <= n <= 0x39 || 0x41 <= n <= 0x48 || 0x4a <= n <= 0x4e || 0x50 <= n <= 0x5a
        }) by {
            lemma_alphabet_chars(entropy, i);
        }
        let up = forall|i: int|
            1 <= i < code.len() ==> (#[trigger] code[i]) as int == code[i - 1] as int + 1;
        let low = if up {
            code[0] as int
        } else {
            code[25] as int
        };
        let gap: int = if low <= 0x39 {
            0x3a
        } else {
            0x49
        };
        let step: int = if up {
            1
        } else {
            -1
        };
        lemma_run_is_linear(code, step, 25);
        let at = if up {
            gap - low
        } else {
            25 - (gap - low)
        };
        assert(0 <= at < 26);
        lemma_run_is_linear(code, step, at);
        assert(code[at] as int == gap);
        assert(false);
    }
    let lower = crate::text::ascii_lowercase(code);
    if is_weak(lower) {
        let i = choose|i: int| 0 <= i < WEAK_LIST@.len() && lower == (#[trigger] WEAK_LIST@[i])@;
        reveal_strlit("password12");
        reveal_strlit("password123");
        reveal_strlit("1234567890");
        reveal_strlit("0123456789");
        reveal_strlit("qwertyuiop");
        reveal_strlit("abcdefghij");
        reveal_strlit("letmeinnow");
        reveal_strlit("narcotest1");
        reveal_strlit("testtest12");
        reveal_strlit("aaaaaaaaaa");
        reveal_strlit("1111111111");
        reveal_strlit("changeme12");
        reveal_strlit("secretcode");
        assert(WEAK_LIST@[i]@.len() <= 11);
    }
}

/// What a code must be: at least ten characters, at least six of them
/// different, no run up or down the alphabet, and none of the codes that
/// everybody thinks of, in whatever case. It is refused for the first of these
/// that it is not.
pub proof fn law_what_a_code_must_be(code: Seq<char>, lower: Seq<char>)
    ensures
        ({
            let rising = code.len() >= 2 && forall|i: int|
                1 <= i < code.len() ==> (#[trigger] code[i]) as int == code[i - 1] as int + 1;
            let falling = code.len() >= 2 && forall|i: int|
                1 <= i < code.len() ==> (#[trigger] code[i]) as int == code[i - 1] as int - 1;
            let common = lower == "password12"@ || lower == "password123"@ || lower
                == "1234567890"@ || lower == "0123456789"@ || lower == "qwertyuiop"@ || lower
                == "abcdefghij"@ || lower == "letmeinnow"@ || lower == "narcotest1"@ || lower
                == "testtest12"@ || lower == "aaaaaaaaaa"@ || lower == "1111111111"@ || lower
                == "changeme12"@ || lower == "secretcode"@;
            verdict(code, lower) == (if code.len() < 10 {
                Err::<(), Error>(Error::CodeTooShort)
            } else if code.to_set().len() < 6 {
                Err(Error::CodeTooRepetitive)
            } else if rising || falling {
                Err(Error::CodeSequential)
            } else if common {
                Err(Error::CodeWeak)
            } else {
                Ok(())
            })
        }),
{
    assert(WEAK_LIST@.len() == 13);
    assert(WEAK_LIST@[0]@ == "password12"@);
    assert(WEAK_LIST@[1]@ == "password123"@);
    assert(WEAK_LIST@[2]@ == "1234567890"@);
    assert(WEAK_LIST@[3]@ == "0123456789"@);
    assert(WEAK_LIST@[4]@ == "qwertyuiop"@);
    assert(WEAK_LIST@[5]@ == "abcdefghij"@);
    assert(WEAK_LIST@[6]@ == "letmeinnow"@);
    assert(WEAK_LIST@[7]@ == "narcotest1"@);
    assert(WEAK_LIST@[8]@ == "testtest12"@);
    assert(WEAK_LIST@[9]@ == "aaaaaaaaaa"@);
    assert(WEAK_LIST@[10]@ == "1111111111"@);
    assert(WEAK_LIST@[11]@ == "changeme12"@);
    assert(WEAK_LIST@[12]@ == "secretcode"@);
}

/// Each byte of entropy picks one character, by its lowest five bits, out of 32
/// that cannot be taken for one another; every byte counts.
pub proof fn law_each_byte_picks_one_of_32(entropy: Seq<u8>, i: int)
    requires
        0 <= i < entropy.len(),
    ensures
        spelled(entropy).len() == entropy.len(),
        "ABCDEFGHJKLMNPQRSTUVWXYZ23456789"@.len() == 32,
        spelled(entropy)[i] == "ABCDEFGHJKLMNPQRSTUVWXYZ23456789"@[entropy[i] as int % 32],
{
    reveal_strlit("ABCDEFGHJKLMNPQRSTUVWXYZ23456789");
    lemma_alphabet_chars(entropy, i);
}

/// A secret is normalized by trimming it and then putting it in NFC, and in no
/// other way: its case stays.
pub proof fn law_normalizing_trims_then_composes(code: Seq<char>)
    ensures
        crate::text::trimmed(code).len() > 0 ==> normalized(code) == nfc(
            crate::text::trimmed(code),
        ),
        crate::text::is_blank(code) ==> normalized(code).len() == 0,
{
    if crate::text::is_blank(code) {
        crate::text::lemma_trimmed_drops_blank(code, Seq::empty(), Seq::empty());
        assert(code + Seq::<char>::empty() + Seq::<char>::empty() =~= code);
    }
}

} // verus!
