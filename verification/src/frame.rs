//! Peer-to-peer framing and length padding.
//!
//! These bytes are opaque to the relay.

use vstd::prelude::*;
use vstd::slice::slice_subrange;
use crate::bytes::{push_be, read_be};
use crate::error::Error;

verus! {

pub const KIND_PAKE: u8 = 0x01;

pub const KIND_CONFIRM: u8 = 0x02;

pub const KIND_MSG: u8 = 0x03;

/// Length of a SPAKE2 (Ed25519 group) handshake message.
pub const PAKE_LEN: usize = 33;

/// Length of a key-confirmation tag.
pub const CONFIRM_LEN: usize = 32;

/// Largest plaintext a single message may carry.
pub const MAX_PLAINTEXT: usize = 32 * 1024;

/// Padded sizes. Ciphertext length therefore reveals only which bucket a
/// message fell into, not its true length.
pub const BUCKETS: [usize; 5] = [256, 1024, 4096, 16384, 65536];

/// A parsed peer-to-peer frame, borrowing from the input buffer.
#[derive(Debug)]
pub enum Frame<'a> {
    Pake(&'a [u8]),
    Confirm(&'a [u8]),
    Msg { ctr: u64, ct: &'a [u8] },
}

/// What a frame carries.
pub enum FrameView {
    Pake(Seq<u8>),
    Confirm(Seq<u8>),
    Msg { ctr: u64, ct: Seq<u8> },
}

impl<'a> View for Frame<'a> {
    type V = FrameView;

    open spec fn view(&self) -> FrameView {
        match *self {
            Frame::Pake(m) => FrameView::Pake(m@),
            Frame::Confirm(t) => FrameView::Confirm(t@),
            Frame::Msg { ctr, ct } => FrameView::Msg { ctr, ct: ct@ },
        }
    }
}

/// The bytes of a handshake frame.
pub open spec fn pake_bytes(msg: Seq<u8>) -> Seq<u8> {
    seq![KIND_PAKE] + msg
}

/// The bytes of a confirmation frame.
pub open spec fn confirm_bytes(tag: Seq<u8>) -> Seq<u8> {
    seq![KIND_CONFIRM] + tag
}

/// The bytes of an encrypted message frame.
pub open spec fn msg_bytes(ctr: u64, ct: Seq<u8>) -> Seq<u8> {
    seq![KIND_MSG] + crate::bytes::be(ctr as nat, 8) + ct
}

/// What the bytes of one frame mean, or why they mean nothing.
pub open spec fn parsed(b: Seq<u8>) -> Result<FrameView, Error> {
    if b.len() == 0 {
        Err(Error::BadFrame)
    } else {
        let rest = b.skip(1);
        if b[0] == KIND_PAKE {
            if rest.len() == PAKE_LEN {
                Ok(FrameView::Pake(rest))
            } else {
                Err(Error::BadFrame)
            }
        } else if b[0] == KIND_CONFIRM {
            if rest.len() == CONFIRM_LEN {
                Ok(FrameView::Confirm(rest))
            } else {
                Err(Error::BadFrame)
            }
        } else if b[0] == KIND_MSG {
            if rest.len() > 8 {
                Ok(
                    FrameView::Msg {
                        ctr: crate::bytes::be_value(rest.take(8)) as u64,
                        ct: rest.skip(8),
                    },
                )
            } else {
                Err(Error::BadFrame)
            }
        } else {
            Err(Error::UnknownKind(b[0]))
        }
    }
}

/// Frame a SPAKE2 message.
pub fn pake_frame(msg: &[u8]) -> (v: Vec<u8>)
    ensures
        v@ == pake_bytes(msg@),
{
    let mut v: Vec<u8> = Vec::new();
    v.push(KIND_PAKE);
    v.extend_from_slice(msg);
    assert(v@ =~= pake_bytes(msg@));
    v
}

/// Frame a confirmation tag.
pub fn confirm_frame(tag: &[u8; CONFIRM_LEN]) -> (v: Vec<u8>)
    ensures
        v@ == confirm_bytes(tag@),
{
    let mut v: Vec<u8> = Vec::new();
    v.push(KIND_CONFIRM);
    v.extend_from_slice(tag.as_slice());
    assert(v@ =~= confirm_bytes(tag@));
    v
}

/// Frame a ciphertext together with its counter.
pub fn msg_frame(ctr: u64, ct: &[u8]) -> (v: Vec<u8>)
    ensures
        v@ == msg_bytes(ctr, ct@),
{
    let mut v: Vec<u8> = Vec::new();
    v.push(KIND_MSG);
    push_be(&mut v, ctr, 8);
    v.extend_from_slice(ct);
    assert(v@ =~= msg_bytes(ctr, ct@));
    v
}

/// Parse a frame, enforcing exact lengths for the fixed-size kinds.
pub fn parse(b: &[u8]) -> (r: Result<Frame<'_>, Error>)
    ensures
        match (r, parsed(b@)) {
            (Ok(f), Ok(view)) => f@ == view,
            (Err(e), Err(why)) => e == why,
            _ => false,
        },
{
    if b.len() == 0 {
        return Err(Error::BadFrame);
    }
    let kind: u8 = b[0];
    let rest: &[u8] = slice_subrange(b, 1, b.len());
    assert(rest@ =~= b@.skip(1));
    if kind == KIND_PAKE {
        if rest.len() == PAKE_LEN {
            Ok(Frame::Pake(rest))
        } else {
            Err(Error::BadFrame)
        }
    } else if kind == KIND_CONFIRM {
        if rest.len() == CONFIRM_LEN {
            Ok(Frame::Confirm(rest))
        } else {
            Err(Error::BadFrame)
        }
    } else if kind == KIND_MSG {
        if rest.len() > 8 {
            let ctr: u64 = read_be(rest, 0, 8);
            let ct: &[u8] = slice_subrange(rest, 8, rest.len());
            assert(rest@.subrange(0, 8) =~= rest@.take(8));
            assert(ct@ =~= rest@.skip(8));
            Ok(Frame::Msg { ctr, ct })
        } else {
            Err(Error::BadFrame)
        }
    } else {
        Err(Error::UnknownKind(kind))
    }
}

/// The size a plaintext of `len` bytes is padded to: the smallest bucket that
/// holds it and its length prefix.
pub open spec fn bucket(len: nat) -> nat {
    if 4 + len <= 256 {
        256
    } else if 4 + len <= 1024 {
        1024
    } else if 4 + len <= 4096 {
        4096
    } else if 4 + len <= 16384 {
        16384
    } else {
        65536
    }
}

/// `n` zero bytes.
pub open spec fn zeros(n: nat) -> Seq<u8> {
    Seq::new(n, |i: int| 0u8)
}

/// A plaintext behind its big-endian length, zero-filled to its bucket.
pub open spec fn padded(pt: Seq<u8>) -> Seq<u8> {
    crate::bytes::be(pt.len(), 4) + pt + zeros((bucket(pt.len()) - 4 - pt.len()) as nat)
}

/// The plaintext inside `p`, if `p` is the padding of one.
pub open spec fn unpadded(p: Seq<u8>) -> Option<Seq<u8>> {
    let len = crate::bytes::be_value(p.take(4));
    if p.len() >= 4 && len <= MAX_PLAINTEXT && p.len() == bucket(len) && (forall|i: int|
        4 + len <= i < p.len() ==> p[i] == 0u8) {
        Some(p.subrange(4, 4 + len as int))
    } else {
        None
    }
}

/// The size a plaintext of `len` bytes is padded to.
fn bucket_for(len: usize) -> (size: usize)
    requires
        len <= MAX_PLAINTEXT,
    ensures
        size == bucket(len as nat),
{
    let mut i: usize = 0;
    while BUCKETS[i] < 4 + len
        invariant
            i <= 4,
            len <= MAX_PLAINTEXT,
            i >= 1 ==> 4 + len > 256,
            i >= 2 ==> 4 + len > 1024,
            i >= 3 ==> 4 + len > 4096,
            i >= 4 ==> 4 + len > 16384,
        decreases 5 - i,
    {
        i = i + 1;
    }
    BUCKETS[i]
}

/// Prefix with a big-endian length, then zero-fill to the next bucket.
pub fn pad(pt: &[u8]) -> (r: Result<Vec<u8>, Error>)
    ensures
        match r {
            Ok(out) => pt@.len() <= MAX_PLAINTEXT && out@ == padded(pt@),
            Err(e) => pt@.len() > MAX_PLAINTEXT && e == Error::TooLong,
        },
{
    if pt.len() > MAX_PLAINTEXT {
        return Err(Error::TooLong);
    }
    let target: usize = bucket_for(pt.len());
    let mut out: Vec<u8> = Vec::with_capacity(target);
    push_be(&mut out, pt.len() as u64, 4);
    out.extend_from_slice(pt);
    proof {
        crate::bytes::lemma_be_len(pt@.len(), 4);
    }
    let ghost inner = out@;
    while out.len() < target
        invariant
            inner.len() <= out@.len() <= target,
            out@ == inner + zeros((out@.len() - inner.len()) as nat),
        decreases target - out@.len(),
    {
        out.push(0);
        assert(out@ =~= inner + zeros((out@.len() - inner.len()) as nat));
    }
    Ok(out)
}

/// Reverse [`pad`], rejecting anything that a faithful `pad` could not produce.
///
/// Verifying the bucket size and the zero tail removes a malleability channel:
/// without those checks an attacker could vary the padding of a message they
/// cannot decrypt and still have it accepted.
pub fn unpad(p: &[u8]) -> (r: Result<Vec<u8>, Error>)
    ensures
        match r {
            Ok(pt) => unpadded(p@) == Some(pt@),
            Err(e) => unpadded(p@) is None && e == Error::Padding,
        },
{
    if p.len() < 4 {
        return Err(Error::Padding);
    }
    let len: u64 = read_be(p, 0, 4);
    assert(p@.subrange(0, 4) =~= p@.take(4));
    if len > MAX_PLAINTEXT as u64 {
        return Err(Error::Padding);
    }
    let len: usize = len as usize;
    if p.len() != bucket_for(len) {
        return Err(Error::Padding);
    }
    let mut i: usize = 4 + len;
    while i < p.len()
        invariant
            4 + len <= i <= p@.len(),
            len == crate::bytes::be_value(p@.take(4)),
            forall|j: int| 4 + len <= j < i ==> p@[j] == 0u8,
        decreases p@.len() - i,
    {
        if p[i] != 0 {
            return Err(Error::Padding);
        }
        i = i + 1;
    }
    Ok(vstd::slice::slice_to_vec(slice_subrange(p, 4, 4 + len)))
}

/// Parsing a framed handshake message gives the message back.
pub proof fn law_pake_frame_round_trips(msg: Seq<u8>)
    requires
        msg.len() == PAKE_LEN,
    ensures
        parsed(pake_bytes(msg)) == Ok::<FrameView, Error>(FrameView::Pake(msg)),
{
    assert(pake_bytes(msg).skip(1) =~= msg);
}

/// Parsing a framed confirmation tag gives the tag back.
pub proof fn law_confirm_frame_round_trips(tag: Seq<u8>)
    requires
        tag.len() == CONFIRM_LEN,
    ensures
        parsed(confirm_bytes(tag)) == Ok::<FrameView, Error>(FrameView::Confirm(tag)),
{
    assert(confirm_bytes(tag).skip(1) =~= tag);
}

/// Parsing a framed message gives the counter and the ciphertext back. (A
/// frame without any ciphertext is malformed.)
pub proof fn law_msg_frame_round_trips(ctr: u64, ct: Seq<u8>)
    requires
        ct.len() > 0,
    ensures
        parsed(msg_bytes(ctr, ct)) == Ok::<FrameView, Error>(FrameView::Msg { ctr, ct }),
{
    let b = msg_bytes(ctr, ct);
    crate::bytes::lemma_be_len(ctr as nat, 8);
    crate::bytes::lemma_pow256_widths();
    crate::bytes::lemma_be_round_trip(ctr as nat, 8);
    assert(b.skip(1).take(8) =~= crate::bytes::be(ctr as nat, 8));
    assert(b.skip(1).skip(8) =~= ct);
}

/// Bytes that parse are exactly the frame of what they parse to, so no two
/// byte strings mean the same thing.
pub proof fn law_parsing_is_faithful(b: Seq<u8>)
    ensures
        match parsed(b) {
            Ok(FrameView::Pake(m)) => b == pake_bytes(m),
            Ok(FrameView::Confirm(t)) => b == confirm_bytes(t),
            Ok(FrameView::Msg { ctr, ct }) => b == msg_bytes(ctr, ct),
            Err(_) => true,
        },
{
    if b.len() > 0 {
        let rest = b.skip(1);
        match parsed(b) {
            Ok(FrameView::Pake(m)) => {
                assert(b =~= pake_bytes(m));
            },
            Ok(FrameView::Confirm(t)) => {
                assert(b =~= confirm_bytes(t));
            },
            Ok(FrameView::Msg { ctr, ct }) => {
                crate::bytes::lemma_be_of_value(rest.take(8));
                crate::bytes::lemma_pow256_widths();
                assert(b =~= msg_bytes(ctr, ct));
            },
            Err(_) => {},
        }
    }
}

/// Unpadding what was padded gives it back, at every length that is allowed.
pub proof fn law_padding_round_trips(pt: Seq<u8>)
    requires
        pt.len() <= MAX_PLAINTEXT,
    ensures
        padded(pt).len() == bucket(pt.len()),
        unpadded(padded(pt)) == Some(pt),
{
    let p = padded(pt);
    crate::bytes::lemma_be_len(pt.len(), 4);
    crate::bytes::lemma_pow256_widths();
    crate::bytes::lemma_be_round_trip(pt.len(), 4);
    assert(p.take(4) =~= crate::bytes::be(pt.len(), 4));
    assert(p.subrange(4, 4 + pt.len() as int) =~= pt);
}

/// Nothing unpads but what padding produced.
pub proof fn law_only_padding_unpads(p: Seq<u8>)
    ensures
        match unpadded(p) {
            Some(pt) => pt.len() <= MAX_PLAINTEXT && p == padded(pt),
            None => forall|pt: Seq<u8>| pt.len() <= MAX_PLAINTEXT ==> p != #[trigger] padded(pt),
        },
{
    match unpadded(p) {
        Some(pt) => {
            crate::bytes::lemma_be_of_value(p.take(4));
            assert(p =~= padded(pt));
        },
        None => {
            assert forall|pt: Seq<u8>| pt.len() <= MAX_PLAINTEXT implies p != #[trigger] padded(
                pt,
            ) by {
                law_padding_round_trips(pt);
            }
        },
    }
}

/// The padded length tells only the bucket: plaintexts whose lengths fall into
/// the same bucket are padded to the same size, and that size is one of
/// [`BUCKETS`].
pub proof fn law_padding_hides_length_within_a_bucket(a: Seq<u8>, b: Seq<u8>)
    requires
        a.len() <= MAX_PLAINTEXT,
        b.len() <= MAX_PLAINTEXT,
        bucket(a.len()) == bucket(b.len()),
    ensures
        padded(a).len() == padded(b).len(),
        exists|i: int| 0 <= i < 5 && padded(a).len() == #[trigger] BUCKETS@[i],
{
    law_padding_round_trips(a);
    law_padding_round_trips(b);
    assert(BUCKETS@[0] == 256 && BUCKETS@[1] == 1024 && BUCKETS@[2] == 4096 && BUCKETS@[3] == 16384
        && BUCKETS@[4] == 65536);
}

/// What each frame is, byte by byte: the kind, 1, 2 or 3, then what it carries;
/// an encrypted message has its counter in front.
pub proof fn law_frames_are_laid_out(msg: Seq<u8>, tag: Seq<u8>, ctr: u64, ct: Seq<u8>)
    ensures
        pake_bytes(msg).len() == 1 + msg.len() && pake_bytes(msg)[0] == 1 && pake_bytes(msg).skip(1)
            == msg,
        confirm_bytes(tag).len() == 1 + tag.len() && confirm_bytes(tag)[0] == 2 && confirm_bytes(
            tag,
        ).skip(1) == tag,
        msg_bytes(ctr, ct).len() == 9 + ct.len() && msg_bytes(ctr, ct)[0] == 3,
        msg_bytes(ctr, ct).subrange(1, 9) == crate::bytes::be(ctr as nat, 8),
        msg_bytes(ctr, ct).skip(9) == ct,
{
    crate::bytes::lemma_be_len(ctr as nat, 8);
    assert(pake_bytes(msg).skip(1) =~= msg);
    assert(confirm_bytes(tag).skip(1) =~= tag);
    assert(msg_bytes(ctr, ct).subrange(1, 9) =~= crate::bytes::be(ctr as nat, 8));
    assert(msg_bytes(ctr, ct).skip(9) =~= ct);
}

/// Which bytes are a frame: a handshake message of exactly 33 bytes, a
/// confirmation tag of exactly 32, or a counter with at least one byte behind
/// it. Any other length is malformed, and any other kind is unknown.
pub proof fn law_what_parses(b: Seq<u8>)
    ensures
        parsed(b) matches Ok(FrameView::Pake(_)) <==> b.len() == 34 && b[0] == 1,
        parsed(b) matches Ok(FrameView::Confirm(_)) <==> b.len() == 33 && b[0] == 2,
        parsed(b) matches Ok(FrameView::Msg { .. }) <==> b.len() >= 10 && b[0] == 3,
        parsed(b) matches Err(e) ==> e == (if b.len() > 0 && !(1 <= b[0] <= 3) {
            Error::UnknownKind(b[0])
        } else {
            Error::BadFrame
        }),
{
}

/// A plaintext is padded to the smallest of the five sizes that holds it and
/// its length.
pub proof fn law_padding_takes_the_smallest_bucket(len: nat, size: nat)
    requires
        len <= MAX_PLAINTEXT,
        size == 256 || size == 1024 || size == 4096 || size == 16384 || size == 65536,
    ensures
        bucket(len) == 256 || bucket(len) == 1024 || bucket(len) == 4096 || bucket(len) == 16384
            || bucket(len) == 65536,
        bucket(len) >= 4 + len,
        size >= 4 + len ==> bucket(len) <= size,
        MAX_PLAINTEXT == 32_768,
{
}

/// A padded plaintext, byte by byte: its length in four bytes, the plaintext,
/// and zeros.
pub proof fn law_padding_is_laid_out(pt: Seq<u8>, i: int)
    requires
        pt.len() <= MAX_PLAINTEXT,
        0 <= i < bucket(pt.len()),
    ensures
        padded(pt).len() == bucket(pt.len()),
        padded(pt).take(4) == crate::bytes::be(pt.len(), 4),
        4 <= i < 4 + pt.len() ==> padded(pt)[i] == pt[i - 4],
        4 + pt.len() <= i ==> padded(pt)[i] == 0,
{
    crate::bytes::lemma_be_len(pt.len(), 4);
    assert(padded(pt).take(4) =~= crate::bytes::be(pt.len(), 4));
}

} // verus!
