//! Finding, splitting and reading numbers in text.

use vstd::prelude::*;
use vstd::slice::slice_subrange;
use crate::text::same_chars;

verus! {

/// Whether `p` stands in `s` at `i`.
pub open spec fn occurs_at(s: Seq<char>, p: Seq<char>, i: int) -> bool {
    0 <= i && i + p.len() <= s.len() && s.subrange(i, i + p.len()) == p
}

/// Where `p` first stands in `s`, from `i` on.
pub open spec fn found_from(s: Seq<char>, p: Seq<char>, i: int) -> Option<int>
    decreases s.len() + 1 - i,
{
    if i < 0 || i + p.len() > s.len() {
        None
    } else if occurs_at(s, p, i) {
        Some(i)
    } else {
        found_from(s, p, i + 1)
    }
}

/// Where `p` first stands in `s`.
pub open spec fn found(s: Seq<char>, p: Seq<char>) -> Option<int> {
    found_from(s, p, 0)
}

/// The part of `s` before the first `p`: all of it where there is none.
pub open spec fn before_first(s: Seq<char>, p: Seq<char>) -> Seq<char> {
    match found(s, p) {
        Some(i) => s.take(i),
        None => s,
    }
}

/// The part of `s` between the first `p` and the next, or the end.
pub open spec fn second_piece(s: Seq<char>, p: Seq<char>) -> Option<Seq<char>> {
    match found(s, p) {
        Some(i) => Some(before_first(s.skip(i + p.len()), p)),
        None => None,
    }
}

/// The part of `s` after the last `p`: all of it where there is none.
pub open spec fn after_last(s: Seq<char>, p: Seq<char>) -> Seq<char>
    decreases s.len(),
    when p.len() > 0
    via after_last_decreases
{
    match found(s, p) {
        Some(i) => after_last(s.skip(i + p.len()), p),
        None => s,
    }
}

#[via_fn]
proof fn after_last_decreases(s: Seq<char>, p: Seq<char>) {
    lemma_found(s, p, 0);
}

/// Whether `s` begins with `p`.
pub open spec fn begins_with(s: Seq<char>, p: Seq<char>) -> bool {
    p.len() <= s.len() && s.take(p.len() as int) == p
}

/// Whether `s` ends with `p`.
pub open spec fn ends_with(s: Seq<char>, p: Seq<char>) -> bool {
    p.len() <= s.len() && s.skip(s.len() - p.len()) == p
}

/// `s` without the `p`s it ends with.
pub open spec fn without_suffix(s: Seq<char>, p: Seq<char>) -> Seq<char>
    decreases s.len(),
{
    if p.len() > 0 && ends_with(s, p) {
        without_suffix(s.take(s.len() - p.len()), p)
    } else {
        s
    }
}

/// An ASCII digit.
pub open spec fn is_digit(c: char) -> bool {
    '0' <= c <= '9'
}

/// The digits that `s` begins with.
pub open spec fn leading_digits(s: Seq<char>) -> Seq<char>
    decreases s.len(),
{
    if s.len() > 0 && is_digit(s[0]) {
        seq![s[0]] + leading_digits(s.skip(1))
    } else {
        Seq::empty()
    }
}

/// The number that decimal digits spell.
pub open spec fn decimal_value(s: Seq<char>) -> nat
    decreases s.len(),
{
    if s.len() == 0 {
        0
    } else {
        decimal_value(s.drop_last()) * 10 + (s.last() as nat - '0' as nat) as nat
    }
}

/// The digits of a number: behind a plus sign, where there is one.
pub open spec fn unsigned_digits(s: Seq<char>) -> Seq<char> {
    if s.len() > 0 && s[0] == '+' {
        s.skip(1)
    } else {
        s
    }
}

/// The number that `s` spells, if it is at most `max`: digits and nothing
/// else, at least one, behind a plus sign or not.
pub open spec fn parsed_number(s: Seq<char>, max: nat) -> Option<nat> {
    let digits = unsigned_digits(s);
    if digits.len() > 0 && (forall|i: int| 0 <= i < digits.len() ==> is_digit(#[trigger] digits[i]))
        && decimal_value(digits) <= max {
        Some(decimal_value(digits))
    } else {
        None
    }
}

pub proof fn lemma_found(s: Seq<char>, p: Seq<char>, i: int)
    requires
        0 <= i,
    ensures
        found_from(s, p, i) matches Some(j) ==> i <= j && j + p.len() <= s.len() && occurs_at(
            s,
            p,
            j,
        ),
    decreases s.len() + 1 - i,
{
    if i + p.len() <= s.len() && !occurs_at(s, p, i) {
        lemma_found(s, p, i + 1);
    }
}

/// Where `p` first stands in `s`.
pub fn find(s: &[char], p: &[char]) -> (r: Option<usize>)
    ensures
        match r {
            Some(i) => found(s@, p@) == Some(i as int) && i + p@.len() <= s@.len(),
            None => found(s@, p@) is None,
        },
{
    if p.len() > s.len() {
        return None;
    }
    let last: usize = s.len() - p.len();
    let mut i: usize = 0;
    while i <= last
        invariant
            i <= last + 1,
            last + p@.len() == s@.len(),
            s@.len() <= usize::MAX,
            last < usize::MAX || p@.len() == 0,
            found(s@, p@) == found_from(s@, p@, i as int),
        decreases last + 1 - i,
    {
        if same_chars(slice_subrange(s, i, i + p.len()), p) {
            return Some(i);
        }
        if i == last {
            assert(found_from(s@, p@, last + 1) is None);
            return None;
        }
        i = i + 1;
    }
    None
}

/// The part of `s` before the first `p`.
pub fn split_before<'a>(s: &'a [char], p: &[char]) -> (r: &'a [char])
    ensures
        r@ == before_first(s@, p@),
{
    match find(s, p) {
        Some(i) => {
            assert(s@.subrange(0, i as int) =~= s@.take(i as int));
            slice_subrange(s, 0, i)
        },
        None => s,
    }
}

/// The part of `s` between the first `p` and the next.
pub fn split_second<'a>(s: &'a [char], p: &[char]) -> (r: Option<&'a [char]>)
    ensures
        match r {
            Some(piece) => second_piece(s@, p@) == Some(piece@),
            None => second_piece(s@, p@) is None,
        },
{
    let end: usize = s.len();
    match find(s, p) {
        Some(i) => {
            let rest: &[char] = slice_subrange(s, i + p.len(), end);
            assert(rest@ =~= s@.skip(i + p@.len()));
            Some(split_before(rest, p))
        },
        None => None,
    }
}

/// The part of `s` after the last `p`.
pub fn split_last<'a>(s: &'a [char], p: &[char]) -> (r: &'a [char])
    requires
        p@.len() > 0,
    ensures
        r@ == after_last(s@, p@),
    decreases s@.len(),
{
    let end: usize = s.len();
    match find(s, p) {
        Some(i) => {
            let rest: &[char] = slice_subrange(s, i + p.len(), end);
            assert(rest@ =~= s@.skip(i + p@.len()));
            split_last(rest, p)
        },
        None => s,
    }
}

/// Whether `s` begins with `p`.
pub fn starts_with(s: &[char], p: &[char]) -> (r: bool)
    ensures
        r == begins_with(s@, p@),
{
    if p.len() > s.len() {
        return false;
    }
    assert(s@.subrange(0, p@.len() as int) =~= s@.take(p@.len() as int));
    same_chars(slice_subrange(s, 0, p.len()), p)
}

/// `s` without the `p`s it ends with.
pub fn trim_suffix<'a>(s: &'a [char], p: &[char]) -> (r: &'a [char])
    ensures
        r@ == without_suffix(s@, p@),
    decreases s@.len(),
{
    if p.len() == 0 || p.len() > s.len() {
        return s;
    }
    let at: usize = s.len() - p.len();
    assert(s@.subrange(at as int, s@.len() as int) =~= s@.skip(at as int));
    if !same_chars(slice_subrange(s, at, s.len()), p) {
        return s;
    }
    assert(s@.subrange(0, at as int) =~= s@.take(at as int));
    trim_suffix(slice_subrange(s, 0, at), p)
}

/// The digits that `s` begins with.
pub fn take_digits(s: &[char]) -> (r: &[char])
    ensures
        r@ == leading_digits(s@),
{
    let mut i: usize = 0;
    assert(s@.skip(0) =~= s@);
    assert(s@.take(0) + leading_digits(s@) =~= leading_digits(s@));
    while i < s.len() && '0' <= s[i] && s[i] <= '9'
        invariant
            i <= s@.len(),
            leading_digits(s@) == s@.take(i as int) + leading_digits(s@.skip(i as int)),
        decreases s@.len() - i,
    {
        i = i + 1;
        proof {
            assert(s@.skip(i - 1).skip(1) =~= s@.skip(i as int));
            assert(s@.take(i as int) =~= s@.take(i - 1) + seq![s@[i - 1]]);
            assert(leading_digits(s@) =~= s@.take(i as int) + leading_digits(s@.skip(i as int)));
        }
    }
    assert(leading_digits(s@) =~= s@.take(i as int));
    assert(s@.subrange(0, i as int) =~= s@.take(i as int));
    slice_subrange(s, 0, i)
}

proof fn lemma_decimal_value_grows(s: Seq<char>, n: int)
    requires
        0 <= n <= s.len(),
    ensures
        decimal_value(s.take(n)) <= decimal_value(s),
    decreases s.len(),
{
    if n == s.len() {
        assert(s.take(n) =~= s);
    } else {
        lemma_decimal_value_grows(s.drop_last(), n);
        assert(s.drop_last().take(n) =~= s.take(n));
    }
}

/// Read a number of at most `max`.
pub fn parse_number(s: &[char], max: u64) -> (r: Option<u64>)
    requires
        max <= 0xffff_ffff,
    ensures
        match r {
            Some(n) => parsed_number(s@, max as nat) == Some(n as nat) && n <= max,
            None => parsed_number(s@, max as nat) is None,
        },
{
    let digits: &[char] = if s.len() > 0 && s[0] == '+' {
        assert(s@.subrange(1, s@.len() as int) =~= s@.skip(1));
        slice_subrange(s, 1, s.len())
    } else {
        s
    };
    if digits.len() == 0 {
        return None;
    }
    let mut n: u64 = 0;
    let mut i: usize = 0;
    while i < digits.len()
        invariant
            i <= digits@.len(),
            digits@ == unsigned_digits(s@),
            max <= 0xffff_ffff,
            n <= max,
            n == decimal_value(digits@.take(i as int)),
            forall|j: int| 0 <= j < i ==> is_digit(#[trigger] digits@[j]),
        decreases digits@.len() - i,
    {
        let c: char = digits[i];
        if !('0' <= c && c <= '9') {
            assert(!is_digit(digits@[i as int]));
            return None;
        }
        proof {
            let next = digits@.take(i + 1);
            assert(next.drop_last() =~= digits@.take(i as int));
            assert(next.last() == c);
            lemma_decimal_value_grows(digits@, i + 1);
        }
        let value: u64 = n * 10 + (c as u8 - 0x30) as u64;
        if value > max {
            return None;
        }
        n = value;
        i = i + 1;
    }
    assert(digits@.take(i as int) =~= digits@);
    Some(n)
}

/// Whether `p` stands nowhere in `s`.
pub open spec fn is_absent(s: Seq<char>, p: Seq<char>) -> bool {
    forall|j: int| 0 <= j <= s.len() - p.len() ==> #[trigger] s.subrange(j, j + p.len()) != p
}

proof fn lemma_found_is_first(s: Seq<char>, p: Seq<char>, from: int)
    requires
        0 <= from,
    ensures
        match found_from(s, p, from) {
            Some(i) => {
                &&& from <= i <= s.len() - p.len()
                &&& s.subrange(i, i + p.len()) == p
                &&& forall|j: int|
                    from <= j < i ==> #[trigger] s.subrange(j, j + p.len()) != p
            },
            None => forall|j: int|
                from <= j <= s.len() - p.len() ==> #[trigger] s.subrange(j, j + p.len()) != p,
        },
    decreases s.len() + 1 - from,
{
    if from + p.len() <= s.len() && !occurs_at(s, p, from) {
        lemma_found_is_first(s, p, from + 1);
    }
}

/// What is found is the first place where the pattern stands; nothing is found
/// where it stands nowhere, and only there.
pub proof fn law_what_is_found_is_first(s: Seq<char>, p: Seq<char>)
    ensures
        match found(s, p) {
            Some(i) => {
                &&& 0 <= i <= s.len() - p.len()
                &&& s.subrange(i, i + p.len()) == p
                &&& forall|j: int| 0 <= j < i ==> #[trigger] s.subrange(j, j + p.len()) != p
            },
            None => is_absent(s, p),
        },
{
    lemma_found_is_first(s, p, 0);
}

/// Where a pattern stands behind a text that it does not begin in, it is found
/// there, and splits the whole into that text and the rest.
pub proof fn law_splitting_undoes_joining(a: Seq<char>, p: Seq<char>, b: Seq<char>)
    requires
        forall|j: int| 0 <= j < a.len() ==> #[trigger] (a + p + b).subrange(j, j + p.len()) != p,
    ensures
        found(a + p + b, p) == Some(a.len() as int),
        before_first(a + p + b, p) == a,
        second_piece(a + p + b, p) == Some(before_first(b, p)),
{
    let s = a + p + b;
    assert(s.subrange(a.len() as int, (a.len() + p.len()) as int) =~= p);
    law_what_is_found_is_first(s, p);
    assert(s.take(a.len() as int) =~= a);
    assert(s.skip((a.len() + p.len()) as int) =~= b);
}

/// Where a pattern stands nowhere, there is nothing to split off.
pub proof fn law_nothing_is_split_off_without_the_pattern(s: Seq<char>, p: Seq<char>)
    requires
        is_absent(s, p),
    ensures
        found(s, p) is None,
        before_first(s, p) == s,
        second_piece(s, p) is None,
        p.len() > 0 ==> after_last(s, p) == s,
{
    law_what_is_found_is_first(s, p);
}

/// What stands after the last pattern is the end of the text, and the pattern
/// stands nowhere in it; where the pattern stands in the text at all, it stands
/// right in front of that.
pub proof fn law_after_the_last_there_is_no_more(s: Seq<char>, p: Seq<char>)
    requires
        p.len() > 0,
    ensures
        ({
            let rest = after_last(s, p);
            let at = s.len() - rest.len();
            &&& 0 <= at
            &&& s.skip(at) == rest
            &&& is_absent(rest, p)
            &&& is_absent(s, p) || p.len() <= at && s.subrange(at - p.len(), at) == p
        }),
    decreases s.len(),
{
    law_what_is_found_is_first(s, p);
    match found(s, p) {
        Some(i) => {
            let tail = s.skip(i + p.len());
            law_after_the_last_there_is_no_more(tail, p);
            let rest = after_last(s, p);
            let at = s.len() - rest.len();
            let inner = tail.len() - rest.len();
            assert(tail.skip(inner) =~= s.skip(at));
            if is_absent(tail, p) {
                law_what_is_found_is_first(tail, p);
                assert(rest == tail);
                assert(s.subrange(at - p.len(), at) == p);
            } else {
                assert(tail.subrange(inner - p.len(), inner) =~= s.subrange(at - p.len(), at));
            }
        },
        None => {
            assert(s.skip(0) =~= s);
        },
    }
}

proof fn lemma_after_last_char(a: Seq<char>, c: char, b: Seq<char>)
    requires
        forall|i: int| 0 <= i < b.len() ==> #[trigger] b[i] != c,
    ensures
        after_last(a + seq![c] + b, seq![c]) == b,
{
    let p = seq![c];
    let s = a + p + b;
    law_after_the_last_there_is_no_more(s, p);
    let rest = after_last(s, p);
    let at = s.len() - rest.len();
    let n = a.len() as int;
    assert(s.subrange(n, n + 1) =~= p);
    assert(!is_absent(s, p));
    assert(s.subrange(at - 1, at)[0] == c);
    assert(s[at - 1] == c);
    if at - 1 > n {
        assert(s[at - 1] == b[at - 1 - n - 1]);
    }
    if at - 1 < n {
        assert(rest[n - at] == c);
        assert(rest.subrange(n - at, n - at + 1) =~= p);
    }
    assert(rest =~= b);
}

/// What stands after the last of a character is what was put there.
pub proof fn law_the_last_part_is_read_back(a: Seq<char>, c: char, b: Seq<char>)
    requires
        !b.contains(c),
    ensures
        after_last(a + seq![c] + b, seq![c]) == b,
{
    assert forall|i: int| 0 <= i < b.len() implies #[trigger] b[i] != c by {
        assert(b.contains(b[i]));
    }
    lemma_after_last_char(a, c, b);
}

/// The digits a text begins with are all of them: each is a digit, and what
/// follows is none.
pub proof fn law_leading_digits_are_all_of_them(s: Seq<char>)
    ensures
        ({
            let n = leading_digits(s).len() as int;
            &&& n <= s.len()
            &&& leading_digits(s) == s.take(n)
            &&& forall|i: int| 0 <= i < n ==> '0' <= #[trigger] s[i] <= '9'
            &&& n < s.len() ==> !('0' <= s[n] <= '9')
        }),
    decreases s.len(),
{
    if s.len() > 0 && is_digit(s[0]) {
        let rest = s.skip(1);
        law_leading_digits_are_all_of_them(rest);
        let n = leading_digits(s).len() as int;
        assert(leading_digits(s) =~= s.take(n));
        assert forall|i: int| 0 <= i < n implies '0' <= #[trigger] s[i] <= '9' by {
            if i > 0 {
                assert(s[i] == rest[i - 1]);
            }
        }
        if n < s.len() {
            assert(s[n] == rest[n - 1]);
        }
    } else {
        assert(s.take(0) =~= Seq::<char>::empty());
    }
}

proof fn lemma_decimal_is_read_back(n: nat)
    ensures
        decimal_value(crate::text::decimal(n)) == n,
    decreases n,
{
    crate::text::law_decimal_digits_count_in_tens(n);
    let s = crate::text::decimal(n);
    if n >= 10 {
        lemma_decimal_is_read_back(n / 10);
    } else {
        reveal_with_fuel(decimal_value, 2);
        assert(s.drop_last() =~= Seq::<char>::empty());
    }
}

/// A number that is written in decimal is read back, with or without a plus
/// sign, if it is not too large; a number that is too large is not read.
pub proof fn law_numbers_are_read_back(n: nat, max: nat)
    ensures
        parsed_number(crate::text::decimal(n), max) == (if n <= max {
            Some(n)
        } else {
            None
        }),
        parsed_number(seq!['+'] + crate::text::decimal(n), max) == (if n <= max {
            Some(n)
        } else {
            None
        }),
{
    lemma_decimal_is_read_back(n);
    crate::text::law_decimal_digits_count_in_tens(n);
    let s = crate::text::decimal(n);
    assert(s[0] != '+');
    assert((seq!['+'] + s).skip(1) =~= s);
}

/// Nothing but digits is a number.
pub proof fn law_only_digits_are_a_number(s: Seq<char>, max: nat)
    ensures
        s.len() == 0 ==> parsed_number(s, max) is None,
        parsed_number(s, max) matches Some(n) ==> n <= max && forall|i: int|
            1 <= i < s.len() ==> '0' <= #[trigger] s[i] <= '9',
        parsed_number(s, max) is Some ==> '0' <= s[0] <= '9' || s[0] == '+' && s.len() > 1,
{
    if parsed_number(s, max) is Some {
        let digits = unsigned_digits(s);
        assert forall|i: int| 1 <= i < s.len() implies '0' <= #[trigger] s[i] <= '9' by {
            if s[0] == '+' {
                assert(digits[i - 1] == s[i]);
                assert(is_digit(digits[i - 1]));
            } else {
                assert(is_digit(digits[i]));
            }
        }
        assert(is_digit(digits[0]));
    }
}

/// Taking a suffix away undoes putting it there, and is done as long as there
/// is one.
pub proof fn law_suffixes_are_taken_away(s: Seq<char>, p: Seq<char>)
    requires
        p.len() > 0,
    ensures
        without_suffix(s + p, p) == without_suffix(s, p),
        p.len() > s.len() || s.skip(s.len() - p.len()) != p ==> without_suffix(s, p) == s,
{
    assert((s + p).skip(s.len() as int) =~= p);
    assert((s + p).take(s.len() as int) =~= s);
}

} // verus!
