//! Characters, trimming and numbers written as text.

use vstd::prelude::*;
use vstd::slice::{slice_subrange, slice_to_vec};

verus! {

/// Appending one character to a `String`.
///
/// Stands for `String::push`: the text grows by exactly that character.
pub assume_specification[ String::push ](s: &mut String, c: char)
    ensures
        final(s)@ == old(s)@.push(c),
;

/// The characters of `s`, one by one.
pub fn chars_of(s: &str) -> (chars: Vec<char>)
    ensures
        chars@ == s@,
{
    let mut chars: Vec<char> = Vec::new();
    for c in it: s.chars()
        invariant
            it.seq() == s@,
            chars@ == s@.take(it.index() as int),
    {
        chars.push(c);
    }
    chars
}

/// The text that `chars` spells.
pub fn string_of(chars: &[char]) -> (s: String)
    ensures
        s@ == chars@,
{
    let mut s: String = String::new();
    let mut i: usize = 0;
    while i < chars.len()
        invariant
            i <= chars@.len(),
            s@ == chars@.take(i as int),
        decreases chars@.len() - i,
    {
        s.push(chars[i]);
        i = i + 1;
        assert(chars@.take(i as int) =~= chars@.take(i - 1).push(chars@[i - 1]));
    }
    assert(chars@.take(i as int) =~= chars@);
    s
}

/// Whether two runs of characters are the same.
pub fn same_chars(a: &[char], b: &[char]) -> (same: bool)
    ensures
        same == (a@ == b@),
{
    if a.len() != b.len() {
        return false;
    }
    let mut i: usize = 0;
    while i < a.len()
        invariant
            i <= a@.len(),
            a@.len() == b@.len(),
            forall|j: int| 0 <= j < i ==> a@[j] == b@[j],
        decreases a@.len() - i,
    {
        if a[i] != b[i] {
            return false;
        }
        i = i + 1;
    }
    assert(a@ =~= b@);
    true
}

/// The characters with Unicode's White_Space property.
pub open spec fn is_white_space(c: char) -> bool {
    let n = c as u32;
    ||| 0x09 <= n <= 0x0d
    ||| n == 0x20
    ||| n == 0x85
    ||| n == 0xa0
    ||| n == 0x1680
    ||| 0x2000 <= n <= 0x200a
    ||| n == 0x2028
    ||| n == 0x2029
    ||| n == 0x202f
    ||| n == 0x205f
    ||| n == 0x3000
}

/// Unicode's control characters (general category Cc).
pub open spec fn is_control(c: char) -> bool {
    let n = c as u32;
    n <= 0x1f || 0x7f <= n <= 0x9f
}

/// Whether `c` is white space.
pub fn white_space(c: char) -> (yes: bool)
    ensures
        yes == is_white_space(c),
{
    let n: u32 = c as u32;
    (0x09 <= n && n <= 0x0d) || n == 0x20 || n == 0x85 || n == 0xa0 || n == 0x1680 || (0x2000 <= n
        && n <= 0x200a) || n == 0x2028 || n == 0x2029 || n == 0x202f || n == 0x205f || n == 0x3000
}

/// Whether `c` is a control character.
pub fn control(c: char) -> (yes: bool)
    ensures
        yes == is_control(c),
{
    let n: u32 = c as u32;
    n <= 0x1f || (0x7f <= n && n <= 0x9f)
}

/// `s` without the white space it begins with.
pub open spec fn trimmed_start(s: Seq<char>) -> Seq<char>
    decreases s.len(),
{
    if s.len() > 0 && is_white_space(s[0]) {
        trimmed_start(s.skip(1))
    } else {
        s
    }
}

/// `s` without the white space it ends with.
pub open spec fn trimmed_end(s: Seq<char>) -> Seq<char>
    decreases s.len(),
{
    if s.len() > 0 && is_white_space(s.last()) {
        trimmed_end(s.drop_last())
    } else {
        s
    }
}

/// `s` without white space at either end.
pub open spec fn trimmed(s: Seq<char>) -> Seq<char> {
    trimmed_end(trimmed_start(s))
}

proof fn lemma_trimmed_start_is_ascii(s: Seq<char>)
    requires
        vstd::utf8::is_ascii_chars(s),
    ensures
        vstd::utf8::is_ascii_chars(trimmed_start(s)),
    decreases s.len(),
{
    if s.len() > 0 && is_white_space(s[0]) {
        assert forall|i: int| 0 <= i < s.skip(1).len() implies '\0' <= #[trigger] s.skip(1)[i]
            <= '\u{7f}' by {
            assert(s.skip(1)[i] == s[i + 1]);
        }
        lemma_trimmed_start_is_ascii(s.skip(1));
    }
}

proof fn lemma_trimmed_end_is_ascii(s: Seq<char>)
    requires
        vstd::utf8::is_ascii_chars(s),
    ensures
        vstd::utf8::is_ascii_chars(trimmed_end(s)),
    decreases s.len(),
{
    if s.len() > 0 && is_white_space(s.last()) {
        assert forall|i: int| 0 <= i < s.drop_last().len() implies '\0' <= #[trigger] s.drop_last()[i]
            <= '\u{7f}' by {
            assert(s.drop_last()[i] == s[i]);
        }
        lemma_trimmed_end_is_ascii(s.drop_last());
    }
}

/// Trimming ASCII text leaves ASCII text.
pub proof fn lemma_trimmed_is_ascii(s: Seq<char>)
    requires
        vstd::utf8::is_ascii_chars(s),
    ensures
        vstd::utf8::is_ascii_chars(trimmed(s)),
{
    lemma_trimmed_start_is_ascii(s);
    lemma_trimmed_end_is_ascii(trimmed_start(s));
}

/// Whether a text is nothing but white space.
pub open spec fn is_blank(s: Seq<char>) -> bool {
    forall|i: int| 0 <= i < s.len() ==> is_white_space(#[trigger] s[i])
}

/// Whether a text has no white space at either end.
pub open spec fn has_bare_ends(s: Seq<char>) -> bool {
    s.len() > 0 ==> !is_white_space(s[0]) && !is_white_space(s.last())
}

proof fn lemma_trimmed_start_begins_bare(s: Seq<char>)
    ensures
        trimmed_start(s).len() > 0 ==> !is_white_space(trimmed_start(s)[0]),
    decreases s.len(),
{
    if s.len() > 0 && is_white_space(s[0]) {
        lemma_trimmed_start_begins_bare(s.skip(1));
    }
}

proof fn lemma_trimmed_end_ends_bare(s: Seq<char>)
    ensures
        trimmed_end(s).len() > 0 ==> !is_white_space(trimmed_end(s).last()) && trimmed_end(s)[0]
            == s[0],
        trimmed_end(s).len() <= s.len(),
    decreases s.len(),
{
    if s.len() > 0 && is_white_space(s.last()) {
        lemma_trimmed_end_ends_bare(s.drop_last());
    }
}

/// Trimming leaves no white space at either end.
pub proof fn lemma_trimmed_has_bare_ends(s: Seq<char>)
    ensures
        has_bare_ends(trimmed(s)),
{
    lemma_trimmed_start_begins_bare(s);
    lemma_trimmed_end_ends_bare(trimmed_start(s));
}

/// Where there is no white space at either end, there is nothing to trim.
pub proof fn lemma_bare_ends_stay(s: Seq<char>)
    requires
        has_bare_ends(s),
    ensures
        trimmed(s) == s,
{
}

proof fn lemma_trimmed_start_drops_blank(blank: Seq<char>, s: Seq<char>)
    requires
        is_blank(blank),
    ensures
        trimmed_start(blank + s) == trimmed_start(s),
    decreases blank.len(),
{
    if blank.len() == 0 {
        assert(blank + s =~= s);
    } else {
        assert((blank + s)[0] == blank[0]);
        assert((blank + s).skip(1) =~= blank.skip(1) + s);
        lemma_trimmed_start_drops_blank(blank.skip(1), s);
    }
}

pub proof fn lemma_trimmed_end_drops_blank(s: Seq<char>, blank: Seq<char>)
    requires
        is_blank(blank),
    ensures
        trimmed_end(s + blank) == trimmed_end(s),
    decreases blank.len(),
{
    if blank.len() == 0 {
        assert(s + blank =~= s);
    } else {
        assert((s + blank).last() == blank.last());
        assert((s + blank).drop_last() =~= s + blank.drop_last());
        lemma_trimmed_end_drops_blank(s, blank.drop_last());
    }
}

proof fn lemma_trimmed_drops_blank_end(s: Seq<char>, blank: Seq<char>)
    requires
        is_blank(blank),
    ensures
        trimmed(s + blank) == trimmed(s),
    decreases s.len(),
{
    if s.len() == 0 {
        assert(s + blank =~= blank + s);
        lemma_trimmed_start_drops_blank(blank, s);
    } else if is_white_space(s[0]) {
        assert((s + blank)[0] == s[0]);
        assert((s + blank).skip(1) =~= s.skip(1) + blank);
        lemma_trimmed_drops_blank_end(s.skip(1), blank);
    } else {
        assert((s + blank)[0] == s[0]);
        lemma_trimmed_end_drops_blank(s, blank);
    }
}

/// White space around a text is trimmed away.
pub proof fn lemma_trimmed_drops_blank(before: Seq<char>, s: Seq<char>, after: Seq<char>)
    requires
        is_blank(before),
        is_blank(after),
    ensures
        trimmed(before + s + after) == trimmed(s),
{
    assert(before + s + after =~= before + (s + after));
    lemma_trimmed_start_drops_blank(before, s + after);
    lemma_trimmed_drops_blank_end(s, after);
}

/// Cut the white space off the front.
pub fn trim_start(s: &[char]) -> (r: &[char])
    ensures
        r@ == trimmed_start(s@),
{
    let mut i: usize = 0;
    assert(s@.skip(0) =~= s@);
    while i < s.len() && white_space(s[i])
        invariant
            i <= s@.len(),
            trimmed_start(s@) == trimmed_start(s@.skip(i as int)),
        decreases s@.len() - i,
    {
        i = i + 1;
        assert(s@.skip(i - 1).skip(1) =~= s@.skip(i as int));
    }
    assert(s@.subrange(i as int, s@.len() as int) =~= s@.skip(i as int));
    slice_subrange(s, i, s.len())
}

/// Cut the white space off the end.
pub fn trim_end(s: &[char]) -> (r: &[char])
    ensures
        r@ == trimmed_end(s@),
{
    let mut n: usize = s.len();
    assert(s@.take(n as int) =~= s@);
    while n > 0 && white_space(s[n - 1])
        invariant
            n <= s@.len(),
            trimmed_end(s@) == trimmed_end(s@.take(n as int)),
        decreases n,
    {
        n = n - 1;
        assert(s@.take(n + 1).drop_last() =~= s@.take(n as int));
    }
    assert(s@.subrange(0, n as int) =~= s@.take(n as int));
    slice_subrange(s, 0, n)
}

/// Cut the white space off both ends.
pub fn trim(s: &[char]) -> (r: &[char])
    ensures
        r@ == trimmed(s@),
{
    trim_end(trim_start(s))
}

/// A character in lower case, where it is a capital letter of ASCII.
pub open spec fn ascii_lower(c: char) -> char {
    if 'A' <= c <= 'Z' {
        ((c as u32) + 32) as char
    } else {
        c
    }
}

/// An ASCII text in lower case.
pub open spec fn ascii_lowercase(s: Seq<char>) -> Seq<char> {
    s.map_values(|c: char| ascii_lower(c))
}

/// Append a text with its ASCII capital letters in lower case.
pub fn push_ascii_lowercase(out: &mut String, s: &str)
    ensures
        final(out)@ == old(out)@ + ascii_lowercase(s@),
{
    let chars: Vec<char> = chars_of(s);
    let ghost lower = ascii_lowercase(s@);
    let mut i: usize = 0;
    assert(out@ =~= old(out)@ + lower.take(0));
    while i < chars.len()
        invariant
            i <= chars@.len(),
            chars@ == s@,
            lower == ascii_lowercase(s@),
            out@ == old(out)@ + lower.take(i as int),
        decreases chars@.len() - i,
    {
        let c: char = chars[i];
        if 'A' <= c && c <= 'Z' {
            out.push((c as u8 + 32) as char);
        } else {
            out.push(c);
        }
        i = i + 1;
        assert(lower.take(i as int) =~= lower.take(i - 1).push(lower[i - 1]));
    }
    assert(lower.take(i as int) =~= lower);
}

/// The decimal digit `d`.
pub open spec fn digit(d: nat) -> char {
    (0x30 + d) as char
}

/// `n` in decimal, without leading zeros.
pub open spec fn decimal(n: nat) -> Seq<char>
    decreases n,
{
    if n < 10 {
        seq![digit(n)]
    } else {
        decimal(n / 10).push(digit(n % 10))
    }
}

/// Append `n` in decimal.
pub fn push_decimal(out: &mut String, n: u64)
    ensures
        final(out)@ == old(out)@ + decimal(n as nat),
    decreases n,
{
    if n >= 10 {
        push_decimal(out, n / 10);
    }
    out.push((0x30u8 + (n % 10) as u8) as char);
}

/// The lowercase hexadecimal digit `d`.
pub open spec fn hex_digit(d: nat) -> char {
    if d < 10 {
        (0x30 + d) as char
    } else {
        (0x57 + d) as char
    }
}

/// `bytes` in lowercase hexadecimal, two digits each.
pub open spec fn hex(bytes: Seq<u8>) -> Seq<char> {
    Seq::new(
        2 * bytes.len(),
        |i: int|
            if i % 2 == 0 {
                hex_digit((bytes[i / 2] / 16) as nat)
            } else {
                hex_digit((bytes[i / 2] % 16) as nat)
            },
    )
}

fn push_hex_digit(out: &mut String, d: u8)
    requires
        d < 16,
    ensures
        final(out)@ == old(out)@.push(hex_digit(d as nat)),
{
    if d < 10 {
        out.push((0x30 + d) as char);
    } else {
        out.push((0x57 + d) as char);
    }
}

/// Append `bytes` in lowercase hexadecimal.
pub fn push_hex(out: &mut String, bytes: &[u8])
    ensures
        final(out)@ == old(out)@ + hex(bytes@),
{
    let mut i: usize = 0;
    assert(out@ =~= old(out)@ + hex(bytes@.take(0)));
    while i < bytes.len()
        invariant
            i <= bytes@.len(),
            out@ == old(out)@ + hex(bytes@.take(i as int)),
        decreases bytes@.len() - i,
    {
        push_hex_digit(out, bytes[i] / 16);
        push_hex_digit(out, bytes[i] % 16);
        i = i + 1;
        assert(hex(bytes@.take(i as int)) =~= hex(bytes@.take(i - 1)).push(
            hex_digit((bytes@[i - 1] / 16) as nat),
        ).push(hex_digit((bytes@[i - 1] % 16) as nat)));
    }
    assert(bytes@.take(i as int) =~= bytes@);
}

/// The UTF-8 encoding of a text.
pub open spec fn utf8(s: Seq<char>) -> Seq<u8> {
    vstd::utf8::encode_utf8(s)
}

/// The text that bytes encode, if they are UTF-8.
pub open spec fn utf8_text(bytes: Seq<u8>) -> Option<Seq<char>> {
    if vstd::utf8::valid_utf8(bytes) {
        Some(vstd::utf8::decode_utf8(bytes))
    } else {
        None
    }
}

/// `String::from_utf8`: the text, exactly where the bytes are valid UTF-8.
#[verifier::external_body]
fn string_from_utf8(bytes: Vec<u8>) -> (r: Option<String>)
    ensures
        r is Some <==> vstd::utf8::valid_utf8(bytes@),
        r matches Some(s) ==> s@ == vstd::utf8::decode_utf8(bytes@),
{
    String::from_utf8(bytes).ok()
}

/// Read bytes as text.
pub fn text_of(bytes: &[u8]) -> (r: Option<String>)
    ensures
        match r {
            Some(s) => utf8_text(bytes@) == Some(s@),
            None => utf8_text(bytes@) is None,
        },
{
    string_from_utf8(slice_to_vec(bytes))
}

/// Encoding a text and reading it again gives the text.
pub proof fn lemma_utf8_round_trip(s: Seq<char>)
    ensures
        utf8_text(utf8(s)) == Some(s),
{
    vstd::utf8::encode_utf8_valid_utf8(s);
    vstd::utf8::encode_utf8_decode_utf8(s);
}

/// The encoding of a text is the encodings of its parts, one after another.
pub proof fn lemma_utf8_concat(a: Seq<char>, b: Seq<char>)
    ensures
        utf8(a + b) == utf8(a) + utf8(b),
    decreases a.len(),
{
    if a.len() == 0 {
        assert(a + b =~= b);
        assert(utf8(a) + utf8(b) =~= utf8(b));
    } else {
        lemma_utf8_concat(a.drop_first(), b);
        assert((a + b).drop_first() =~= a.drop_first() + b);
        assert(utf8(a + b) =~= utf8(a) + utf8(b));
    }
}

/// A text encodes to at least as many bytes as any beginning of it.
proof fn lemma_utf8_prefix(s: Seq<char>, n: int)
    requires
        0 <= n <= s.len(),
    ensures
        utf8(s.take(n)).len() <= utf8(s).len(),
{
    assert(s =~= s.take(n) + s.skip(n));
    lemma_utf8_concat(s.take(n), s.skip(n));
}

/// A text cut to at most `max` bytes of UTF-8 without splitting a character:
/// characters go from the end until it fits.
pub open spec fn cut(s: Seq<char>, max: nat) -> Seq<char>
    decreases s.len(),
{
    if s.len() == 0 || utf8(s).len() <= max {
        s
    } else {
        cut(s.drop_last(), max)
    }
}

/// What is left of a text after cutting fits, and begins as the text begins.
pub proof fn lemma_cut_fits(s: Seq<char>, max: nat)
    ensures
        utf8(cut(s, max)).len() <= max,
        cut(s, max).len() <= s.len(),
        cut(s, max) == s.take(cut(s, max).len() as int),
    decreases s.len(),
{
    if s.len() == 0 || utf8(s).len() <= max {
        assert(s.take(s.len() as int) =~= s);
    } else {
        lemma_cut_fits(s.drop_last(), max);
        let n = cut(s, max).len() as int;
        assert(s.drop_last().take(n) =~= s.take(n));
    }
}

proof fn lemma_cut_point(s: Seq<char>, max: nat, n: int)
    requires
        0 <= n <= s.len(),
        utf8(s.take(n)).len() <= max,
        n < s.len() ==> utf8(s.take(n + 1)).len() > max,
    ensures
        cut(s, max) == s.take(n),
    decreases s.len(),
{
    if n == s.len() {
        assert(s.take(n) =~= s);
    } else {
        lemma_utf8_prefix(s, n + 1);
        let shorter = s.drop_last();
        assert(shorter.take(n) =~= s.take(n));
        if n < shorter.len() {
            assert(shorter.take(n + 1) =~= s.take(n + 1));
        }
        lemma_cut_point(shorter, max, n);
    }
}

/// How many bytes a character takes in UTF-8.
fn utf8_width(c: char) -> (w: usize)
    ensures
        w == vstd::utf8::encode_scalar(c as u32).len(),
        1 <= w <= 4,
{
    proof {
        vstd::utf8::char_is_scalar(c);
    }
    let n: u32 = c as u32;
    if n <= 0x7f {
        1
    } else if n <= 0x7ff {
        2
    } else if n <= 0xffff {
        3
    } else {
        4
    }
}

/// Cut a text to at most `max` bytes without splitting a character.
pub fn truncate(s: &[char], max: usize) -> (r: &[char])
    ensures
        r@ == cut(s@, max as nat),
{
    let mut used: usize = 0;
    let mut n: usize = 0;
    assert(s@.take(0) =~= Seq::<char>::empty());
    while n < s.len() && utf8_width(s[n]) <= max - used
        invariant
            n <= s@.len(),
            used == utf8(s@.take(n as int)).len(),
            used <= max,
        decreases s@.len() - n,
    {
        proof {
            lemma_utf8_take_next(s@, n as int);
        }
        used = used + utf8_width(s[n]);
        n = n + 1;
    }
    proof {
        if n < s@.len() {
            lemma_utf8_take_next(s@, n as int);
        }
        lemma_cut_point(s@, max as nat, n as int);
    }
    assert(s@.subrange(0, n as int) =~= s@.take(n as int));
    slice_subrange(s, 0, n)
}

proof fn lemma_utf8_take_next(s: Seq<char>, n: int)
    requires
        0 <= n < s.len(),
    ensures
        utf8(s.take(n + 1)) == utf8(s.take(n)) + vstd::utf8::encode_scalar(s[n] as u32),
{
    let one = seq![s[n]];
    assert(s.take(n + 1) =~= s.take(n) + one);
    lemma_utf8_concat(s.take(n), one);
    reveal_with_fuel(vstd::utf8::encode_utf8, 2);
    assert(one.drop_first() =~= Seq::<char>::empty());
    assert(utf8(one) =~= vstd::utf8::encode_scalar(s[n] as u32));
}

/// A number in decimal is read back by its digits: each is one of the ten, the
/// last is what is left of dividing by ten, and those before it are the number
/// divided by ten. Only zero begins with a zero.
pub proof fn law_decimal_digits_count_in_tens(n: nat)
    ensures
        decimal(n).len() > 0,
        decimal(n).last() as nat == 0x30 + n % 10,
        n >= 10 ==> decimal(n).drop_last() == decimal(n / 10),
        n < 10 ==> decimal(n).len() == 1,
        n > 0 ==> decimal(n)[0] != '0',
        forall|i: int| 0 <= i < decimal(n).len() ==> '0' <= #[trigger] decimal(n)[i] <= '9',
    decreases n,
{
    if n >= 10 {
        law_decimal_digits_count_in_tens(n / 10);
        assert(decimal(n).drop_last() =~= decimal(n / 10));
        assert forall|i: int| 0 <= i < decimal(n).len() implies '0' <= #[trigger] decimal(n)[i]
            <= '9' by {
            if i < decimal(n).len() - 1 {
                assert(decimal(n)[i] == decimal(n / 10)[i]);
            }
        }
    }
}

/// The value of a lowercase hexadecimal digit, and a number past fifteen for
/// anything else.
pub open spec fn hex_value(c: char) -> nat {
    if '0' <= c <= '9' {
        (c as nat - 0x30) as nat
    } else if 'a' <= c <= 'f' {
        (c as nat - 0x61 + 10) as nat
    } else {
        16
    }
}

/// Two lowercase hexadecimal digits stand for each byte, the higher one first.
pub proof fn law_hex_spells_every_byte(bytes: Seq<u8>, i: int)
    requires
        0 <= i < bytes.len(),
    ensures
        hex(bytes).len() == 2 * bytes.len(),
        hex_value(hex(bytes)[2 * i]) < 16,
        hex_value(hex(bytes)[2 * i + 1]) < 16,
        16 * hex_value(hex(bytes)[2 * i]) + hex_value(hex(bytes)[2 * i + 1]) == bytes[i],
{
    assert((2 * i) / 2 == i && (2 * i) % 2 == 0);
    assert((2 * i + 1) / 2 == i && (2 * i + 1) % 2 == 1);
}

proof fn lemma_trimmed_start_is_a_rest(s: Seq<char>)
    ensures
        trimmed_start(s).len() <= s.len(),
        trimmed_start(s) == s.skip(s.len() - trimmed_start(s).len()),
        is_blank(s.take(s.len() - trimmed_start(s).len())),
    decreases s.len(),
{
    if s.len() > 0 && is_white_space(s[0]) {
        lemma_trimmed_start_is_a_rest(s.skip(1));
        let n = s.len() - trimmed_start(s).len();
        assert(s.skip(1).skip(n - 1) =~= s.skip(n));
        assert forall|i: int| 0 <= i < n implies is_white_space(#[trigger] s.take(n)[i]) by {
            if i > 0 {
                assert(s.take(n)[i] == s.skip(1).take(n - 1)[i - 1]);
            }
        }
    } else {
        assert(s.skip(0) =~= s);
    }
}

proof fn lemma_trimmed_end_is_a_beginning(s: Seq<char>)
    ensures
        trimmed_end(s).len() <= s.len(),
        trimmed_end(s) == s.take(trimmed_end(s).len() as int),
        is_blank(s.skip(trimmed_end(s).len() as int)),
    decreases s.len(),
{
    let n = trimmed_end(s).len() as int;
    if s.len() > 0 && is_white_space(s.last()) {
        lemma_trimmed_end_is_a_beginning(s.drop_last());
        assert(s.drop_last().take(n) =~= s.take(n));
        assert forall|i: int| 0 <= i < s.len() - n implies is_white_space(
            #[trigger] s.skip(n)[i],
        ) by {
            if i < s.len() - n - 1 {
                assert(s.skip(n)[i] == s.drop_last().skip(n)[i]);
            } else {
                assert(s.skip(n)[i] == s.last());
            }
        }
    } else {
        assert(s.take(s.len() as int) =~= s);
    }
}

/// Trimming takes away white space at the two ends and nothing else: what is
/// left is a stretch of the text that begins and ends without white space, and
/// everything outside it is white space.
pub proof fn law_trimming_takes_only_white_space(s: Seq<char>)
    ensures
        exists|i: int, j: int|
            0 <= i <= j <= s.len() && trimmed(s) == #[trigger] s.subrange(i, j) && is_blank(
                s.take(i),
            ) && is_blank(s.skip(j)),
        has_bare_ends(trimmed(s)),
{
    lemma_trimmed_start_is_a_rest(s);
    let rest = trimmed_start(s);
    lemma_trimmed_end_is_a_beginning(rest);
    lemma_trimmed_has_bare_ends(s);
    let i = s.len() - rest.len();
    let j = i + trimmed(s).len();
    assert(trimmed(s) =~= s.subrange(i, j));
    assert forall|k: int| 0 <= k < s.len() - j implies is_white_space(#[trigger] s.skip(j)[k]) by {
        assert(s.skip(j)[k] == rest.skip(trimmed(s).len() as int)[k]);
    }
}

/// Putting ASCII text in lower case changes the capital letters, each into its
/// small letter, and leaves every other character as it is.
pub proof fn law_lower_case_changes_capitals_only(s: Seq<char>, i: int)
    requires
        0 <= i < s.len(),
    ensures
        ascii_lowercase(s).len() == s.len(),
        'A' <= s[i] <= 'Z' ==> ascii_lowercase(s)[i] as nat == s[i] as nat + 32,
        !('A' <= s[i] <= 'Z') ==> ascii_lowercase(s)[i] == s[i],
{
}

/// A text is cut between characters, at the last place where what stands before
/// it still fits: the result begins the text, fits, and one character more
/// would not.
pub proof fn law_cutting_keeps_as_much_as_fits(s: Seq<char>, max: nat)
    ensures
        ({
            let n = cut(s, max).len() as int;
            &&& n <= s.len()
            &&& cut(s, max) == s.take(n)
            &&& vstd::utf8::encode_utf8(s.take(n)).len() <= max
            &&& n < s.len() ==> vstd::utf8::encode_utf8(s.take(n + 1)).len() > max
        }),
    decreases s.len(),
{
    lemma_cut_fits(s, max);
    let n = cut(s, max).len() as int;
    if utf8(s).len() > max {
        let shorter = s.drop_last();
        law_cutting_keeps_as_much_as_fits(shorter, max);
        assert(shorter.take(n) =~= s.take(n));
        if n < shorter.len() {
            assert(shorter.take(n + 1) =~= s.take(n + 1));
        } else {
            assert(s.take(n + 1) =~= s);
        }
    } else {
        assert(s.take(s.len() as int) =~= s);
    }
}

} // verus!
