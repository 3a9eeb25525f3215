//! Big-endian integers of a fixed width.

use vstd::prelude::*;

verus! {

/// The number of values that `width` bytes can hold.
pub open spec fn pow256(width: nat) -> nat
    decreases width,
{
    if width == 0 {
        1
    } else {
        256 * pow256((width - 1) as nat)
    }
}

/// The low `width` bytes of `n`, most significant first.
pub open spec fn be(n: nat, width: nat) -> Seq<u8>
    decreases width,
{
    if width == 0 {
        Seq::empty()
    } else {
        be(n / 256, (width - 1) as nat).push((n % 256) as u8)
    }
}

/// The number that `bytes` spells, most significant byte first.
pub open spec fn be_value(bytes: Seq<u8>) -> nat
    decreases bytes.len(),
{
    if bytes.len() == 0 {
        0
    } else {
        be_value(bytes.drop_last()) * 256 + bytes.last() as nat
    }
}

/// Encoding a number takes exactly `width` bytes.
pub proof fn lemma_be_len(n: nat, width: nat)
    ensures
        be(n, width).len() == width,
    decreases width,
{
    if width > 0 {
        lemma_be_len(n / 256, (width - 1) as nat);
    }
}

/// Every number that fits is read back from its encoding.
pub proof fn lemma_be_round_trip(n: nat, width: nat)
    requires
        n < pow256(width),
    ensures
        be_value(be(n, width)) == n,
    decreases width,
{
    if width > 0 {
        lemma_be_len(n, width);
        lemma_be_round_trip(n / 256, (width - 1) as nat);
        assert(be(n, width).drop_last() =~= be(n / 256, (width - 1) as nat));
    }
}

/// Bytes are the encoding of the number they spell, and that number fits.
pub proof fn lemma_be_of_value(bytes: Seq<u8>)
    ensures
        be_value(bytes) < pow256(bytes.len()),
        be(be_value(bytes), bytes.len()) == bytes,
    decreases bytes.len(),
{
    if bytes.len() > 0 {
        lemma_be_of_value(bytes.drop_last());
        assert(be(be_value(bytes), bytes.len()) =~= bytes);
    }
}

/// The widths that appear on the wire hold the machine integers they carry.
pub proof fn lemma_pow256_widths()
    ensures
        pow256(2) == 0x1_0000,
        pow256(4) == 0x1_0000_0000,
        pow256(8) == 0x1_0000_0000_0000_0000,
{
    reveal_with_fuel(pow256, 9);
}

/// Append the low `width` bytes of `n`, most significant first.
pub fn push_be(out: &mut Vec<u8>, n: u64, width: usize)
    ensures
        final(out)@ == old(out)@ + be(n as nat, width as nat),
    decreases width,
{
    if width > 0 {
        push_be(out, n / 256, width - 1);
        out.push((n % 256) as u8);
    }
}

/// Read `width` bytes of `bytes` at `from` as one number.
pub fn read_be(bytes: &[u8], from: usize, width: usize) -> (n: u64)
    requires
        from + width <= bytes@.len(),
        width <= 8,
    ensures
        n as nat == be_value(bytes@.subrange(from as int, from + width)),
        n < pow256(width as nat),
{
    let len: usize = bytes.len();
    let mut n: u64 = 0;
    let mut i: usize = 0;
    while i < width
        invariant
            i <= width <= 8,
            from + width <= len == bytes@.len(),
            n as nat == be_value(bytes@.subrange(from as int, from + i)),
            n < pow256(i as nat),
        decreases width - i,
    {
        proof {
            let next = bytes@.subrange(from as int, from + i + 1);
            assert(next.drop_last() =~= bytes@.subrange(from as int, from + i));
            lemma_be_of_value(next);
            reveal_with_fuel(pow256, 9);
        }
        n = n * 256 + bytes[from + i] as u64;
        i = i + 1;
    }
    n
}

/// The most significant byte comes first, at every width that appears on the
/// wire: byte by byte, the encoding is the number shifted by eight bits more.
pub proof fn law_most_significant_byte_first(n: nat)
    ensures
        be(n, 2) == seq![(n / 0x100 % 256) as u8, (n % 256) as u8],
        be(n, 4) == seq![
            (n / 0x100_0000 % 256) as u8,
            (n / 0x1_0000 % 256) as u8,
            (n / 0x100 % 256) as u8,
            (n % 256) as u8,
        ],
        be(n, 8) == be(n / 0x1_0000_0000, 4) + be(n, 4),
{
    reveal_with_fuel(be, 9);
    assert(n / 256 / 256 == n / 0x1_0000);
    assert(n / 256 / 256 / 256 == n / 0x100_0000);
    assert(n / 256 / 256 / 256 / 256 == n / 0x1_0000_0000);
    assert(be(n, 2) =~= seq![(n / 0x100 % 256) as u8, (n % 256) as u8]);
    assert(be(n, 4) =~= seq![
        (n / 0x100_0000 % 256) as u8,
        (n / 0x1_0000 % 256) as u8,
        (n / 0x100 % 256) as u8,
        (n % 256) as u8,
    ]);
    assert(be(n, 8) =~= be(n / 0x1_0000_0000, 4) + be(n, 4));
}

} // verus!
