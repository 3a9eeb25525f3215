//! The plain form of a decrypted message: the same layout as
//! [`crate::message`], which is what a conversation uses, with names taken as
//! they come.
//!
//! A message is a kind, the sender's chosen name, and a payload — text, or one
//! piece of a file. Each piece travels as an ordinary encrypted message, so a
//! file gets exactly the same protection as anything else said in the room, and
//! the transport never learns it is carrying a file at all.

use vstd::prelude::*;
use vstd::slice::{slice_subrange, slice_to_vec};
use crate::bytes::{push_be, read_be};
use crate::frame::MAX_PLAINTEXT;
use crate::text::{chars_of, string_of, text_of, truncate};

verus! {

/// A text message.
pub const KIND_TEXT: u8 = 1;

/// One piece of a file.
pub const KIND_FILE: u8 = 2;

/// How much file data rides in one message.
///
/// Under the plaintext limit with room for the header, and a round number so a
/// transfer's piece count is easy to reason about when something goes wrong.
pub const CHUNK: usize = 30_000;

/// Names are bounded so a hostile peer cannot spend the whole message on one.
pub const MAX_NAME: usize = 64;

pub const MAX_FILENAME: usize = 255;

/// The most pieces a transfer may claim.
pub const MAX_PIECES: u32 = 100_000;

/// A message as the receiver sees it.
#[derive(Debug, PartialEq, Eq)]
pub enum Incoming {
    Text { from: String, text: String },
    /// One piece of a file. `id` groups the pieces of a single transfer;
    /// pieces of different transfers can arrive interleaved.
    File { from: String, id: u64, index: u32, total: u32, name: String, data: Vec<u8> },
}

impl View for Incoming {
    type V = crate::message::IncomingView;

    open spec fn view(&self) -> crate::message::IncomingView {
        match *self {
            Incoming::Text { from, text } => crate::message::IncomingView::Text {
                from: from@,
                text: text@,
            },
            Incoming::File { from, id, index, total, name, data } =>
            crate::message::IncomingView::File {
                from: from@,
                id,
                index,
                total,
                name: name@,
                data: data@,
            },
        }
    }
}

/// A filename as it is sent: its first 255 bytes.
pub open spec fn filename_bytes(name: Seq<char>) -> Seq<u8> {
    let bytes = crate::text::utf8(name);
    if bytes.len() <= MAX_FILENAME {
        bytes
    } else {
        bytes.take(MAX_FILENAME as int)
    }
}

/// The bytes of a text message.
pub open spec fn text_bytes(from: Seq<char>, text: Seq<char>) -> Seq<u8> {
    seq![KIND_TEXT] + crate::message::name_field(from, MAX_NAME as nat) + crate::text::utf8(text)
}

/// The bytes of one piece of a file.
pub open spec fn chunk_bytes(
    from: Seq<char>,
    id: u64,
    index: u32,
    total: u32,
    name: Seq<char>,
    data: Seq<u8>,
) -> Seq<u8> {
    let file = filename_bytes(name);
    seq![KIND_FILE] + crate::message::name_field(from, MAX_NAME as nat) + crate::bytes::be(
        id as nat,
        8,
    ) + crate::bytes::be(index as nat, 4) + crate::bytes::be(total as nat, 4) + crate::bytes::be(
        file.len(),
        2,
    ) + file + data
}

/// What the part of a file message behind the sender's name says, or `None`.
pub open spec fn decoded_file(from: Seq<char>, body: Seq<u8>) -> Option<
    crate::message::IncomingView,
> {
    let id = crate::bytes::be_value(body.subrange(0, 8));
    let index = crate::bytes::be_value(body.subrange(8, 12));
    let total = crate::bytes::be_value(body.subrange(12, 16));
    let n = crate::bytes::be_value(body.subrange(16, 18)) as int;
    let rest = body.skip(18);
    if body.len() < 18 || rest.len() < n || total == 0 || index >= total || total > MAX_PIECES {
        None
    } else {
        match crate::text::utf8_text(rest.take(n)) {
            None => None,
            Some(name) => Some(
                crate::message::IncomingView::File {
                    from,
                    id: id as u64,
                    index: index as u32,
                    total: total as u32,
                    name,
                    data: rest.skip(n),
                },
            ),
        }
    }
}

/// What a message says, or `None` if it is malformed.
pub open spec fn decoded(raw: Seq<u8>) -> Option<crate::message::IncomingView> {
    let n = raw[1] as int;
    let rest = raw.skip(2);
    if raw.len() < 2 || rest.len() < n {
        None
    } else {
        match crate::text::utf8_text(rest.take(n)) {
            None => None,
            Some(from) => {
                let body = rest.skip(n);
                if raw[0] == KIND_TEXT {
                    match crate::text::utf8_text(body) {
                        None => None,
                        Some(text) => Some(crate::message::IncomingView::Text { from, text }),
                    }
                } else if raw[0] == KIND_FILE {
                    decoded_file(from, body)
                } else {
                    None
                }
            },
        }
    }
}

/// A name cannot be longer than its length prefix can describe, and is cut on
/// a character boundary so what arrives is still valid text.
fn put_str(out: &mut Vec<u8>, s: &str, max: usize)
    requires
        max <= 255,
    ensures
        final(out)@ == old(out)@ + crate::message::name_field(s@, max as nat),
{
    let chars: Vec<char> = chars_of(s);
    let short: String = string_of(truncate(chars.as_slice(), max));
    let bytes: &[u8] = short.as_str().as_bytes();
    proof {
        crate::text::lemma_cut_fits(s@, max as nat);
    }
    out.push(bytes.len() as u8);
    out.extend_from_slice(bytes);
    assert(out@ =~= old(out)@ + crate::message::name_field(s@, max as nat));
}

/// Write a text message.
pub fn encode_text(from: &str, text: &str) -> (out: Vec<u8>)
    ensures
        out@ == text_bytes(from@, text@),
{
    let mut out: Vec<u8> = Vec::new();
    out.push(KIND_TEXT);
    put_str(&mut out, from, MAX_NAME);
    out.extend_from_slice(text.as_bytes());
    assert(out@ =~= text_bytes(from@, text@));
    out
}

/// Write one piece of a file.
pub fn encode_file_chunk(
    from: &str,
    id: u64,
    index: u32,
    total: u32,
    name: &str,
    data: &[u8],
) -> (out: Vec<u8>)
    requires
        chunk_bytes(from@, id, index, total, name@, data@).len() <= MAX_PLAINTEXT,
    ensures
        out@ == chunk_bytes(from@, id, index, total, name@, data@),
{
    let mut out: Vec<u8> = Vec::new();
    out.push(KIND_FILE);
    put_str(&mut out, from, MAX_NAME);
    push_be(&mut out, id, 8);
    push_be(&mut out, index as u64, 4);
    push_be(&mut out, total as u64, 4);
    let name_bytes: &[u8] = name.as_bytes();
    let name_len: usize = if name_bytes.len() <= MAX_FILENAME {
        name_bytes.len()
    } else {
        MAX_FILENAME
    };
    let kept: &[u8] = slice_subrange(name_bytes, 0, name_len);
    assert(kept@ =~= filename_bytes(name@));
    push_be(&mut out, name_len as u64, 2);
    out.extend_from_slice(kept);
    out.extend_from_slice(data);
    assert(out@ =~= chunk_bytes(from@, id, index, total, name@, data@));
    out
}

/// Read a message, or `None` if it is malformed.
///
/// Every field is length-checked before it is read. The peer is authenticated,
/// but a bug on their side should still not be able to walk this off the end of
/// the buffer.
pub fn decode(raw: &[u8]) -> (r: Option<Incoming>)
    ensures
        match r {
            Some(m) => decoded(raw@) == Some(m@),
            None => decoded(raw@) is None,
        },
{
    if raw.len() < 2 {
        return None;
    }
    let kind: u8 = raw[0];
    let name_len: usize = raw[1] as usize;
    let rest: &[u8] = slice_subrange(raw, 2, raw.len());
    assert(rest@ =~= raw@.skip(2));
    if rest.len() < name_len {
        return None;
    }
    let name: &[u8] = slice_subrange(rest, 0, name_len);
    let body: &[u8] = slice_subrange(rest, name_len, rest.len());
    assert(name@ =~= rest@.take(name_len as int));
    assert(body@ =~= rest@.skip(name_len as int));
    let from: String = match text_of(name) {
        None => {
            return None;
        },
        Some(s) => s,
    };
    if kind == KIND_TEXT {
        match text_of(body) {
            None => None,
            Some(text) => Some(Incoming::Text { from, text }),
        }
    } else if kind == KIND_FILE {
        decode_file(from, body)
    } else {
        None
    }
}

fn decode_file(from: String, body: &[u8]) -> (r: Option<Incoming>)
    ensures
        match r {
            Some(m) => decoded_file(from@, body@) == Some(m@),
            None => decoded_file(from@, body@) is None,
        },
{
    if body.len() < 18 {
        return None;
    }
    proof {
        crate::bytes::lemma_pow256_widths();
    }
    let id: u64 = read_be(body, 0, 8);
    let index: u64 = read_be(body, 8, 4);
    let total: u64 = read_be(body, 12, 4);
    let name_len: usize = read_be(body, 16, 2) as usize;
    let rest: &[u8] = slice_subrange(body, 18, body.len());
    assert(rest@ =~= body@.skip(18));
    if rest.len() < name_len {
        return None;
    }
    let name: &[u8] = slice_subrange(rest, 0, name_len);
    let data: &[u8] = slice_subrange(rest, name_len, rest.len());
    assert(name@ =~= rest@.take(name_len as int));
    assert(data@ =~= rest@.skip(name_len as int));
    // A transfer claiming more pieces than could ever be sent is a bug or an
    // attempt to make the receiver hold memory for nothing.
    if total == 0 || index >= total || total > MAX_PIECES as u64 {
        return None;
    }
    match text_of(name) {
        None => None,
        Some(name) => Some(
            Incoming::File {
                from,
                id,
                index: index as u32,
                total: total as u32,
                name,
                data: slice_to_vec(data),
            },
        ),
    }
}

/// Every text message is read as it was written; only the sender's name is cut
/// to 64 bytes.
pub proof fn law_text_round_trips(from: Seq<char>, text: Seq<char>)
    ensures
        decoded(text_bytes(from, text)) == Some(
            crate::message::IncomingView::Text {
                from: crate::text::cut(from, MAX_NAME as nat),
                text,
            },
        ),
{
    let raw = text_bytes(from, text);
    let short = crate::text::cut(from, MAX_NAME as nat);
    let name = crate::text::utf8(short);
    crate::text::lemma_cut_fits(from, MAX_NAME as nat);
    assert(raw.skip(2) =~= name + crate::text::utf8(text));
    assert(raw.skip(2).take(name.len() as int) =~= name);
    assert(raw.skip(2).skip(name.len() as int) =~= crate::text::utf8(text));
    crate::text::lemma_utf8_round_trip(short);
    crate::text::lemma_utf8_round_trip(text);
}

/// Every piece of a file is read as it was written. (A filename of more than
/// 255 bytes may be cut inside a character, and is left out.)
pub proof fn law_file_chunks_round_trip(
    from: Seq<char>,
    id: u64,
    index: u32,
    total: u32,
    name: Seq<char>,
    data: Seq<u8>,
)
    requires
        0 < total <= MAX_PIECES,
        index < total,
        crate::text::utf8(name).len() <= MAX_FILENAME,
    ensures
        decoded(chunk_bytes(from, id, index, total, name, data)) == Some(
            crate::message::IncomingView::File {
                from: crate::text::cut(from, MAX_NAME as nat),
                id,
                index,
                total,
                name,
                data,
            },
        ),
{
    let raw = chunk_bytes(from, id, index, total, name, data);
    let short = crate::text::cut(from, MAX_NAME as nat);
    let sender = crate::text::utf8(short);
    let file = crate::text::utf8(name);
    crate::text::lemma_cut_fits(from, MAX_NAME as nat);
    let id_bytes = crate::bytes::be(id as nat, 8);
    let index_bytes = crate::bytes::be(index as nat, 4);
    let total_bytes = crate::bytes::be(total as nat, 4);
    let len_bytes = crate::bytes::be(file.len(), 2);
    crate::bytes::lemma_be_len(id as nat, 8);
    crate::bytes::lemma_be_len(index as nat, 4);
    crate::bytes::lemma_be_len(total as nat, 4);
    crate::bytes::lemma_be_len(file.len(), 2);
    crate::bytes::lemma_pow256_widths();
    crate::bytes::lemma_be_round_trip(id as nat, 8);
    crate::bytes::lemma_be_round_trip(index as nat, 4);
    crate::bytes::lemma_be_round_trip(total as nat, 4);
    crate::bytes::lemma_be_round_trip(file.len(), 2);
    let body = id_bytes + index_bytes + total_bytes + len_bytes + file + data;
    assert(raw.skip(2) =~= sender + body);
    assert(raw.skip(2).take(sender.len() as int) =~= sender);
    assert(raw.skip(2).skip(sender.len() as int) =~= body);
    assert(body.subrange(0, 8) =~= id_bytes);
    assert(body.subrange(8, 12) =~= index_bytes);
    assert(body.subrange(12, 16) =~= total_bytes);
    assert(body.subrange(16, 18) =~= len_bytes);
    assert(body.skip(18).take(file.len() as int) =~= file);
    assert(body.skip(18).skip(file.len() as int) =~= data);
    crate::text::lemma_utf8_round_trip(short);
    crate::text::lemma_utf8_round_trip(name);
}

/// A full-size piece plus its header fits in one message, whatever the names.
pub proof fn law_a_full_chunk_fits_in_one_message(
    from: Seq<char>,
    id: u64,
    index: u32,
    total: u32,
    name: Seq<char>,
    data: Seq<u8>,
)
    requires
        data.len() <= CHUNK,
    ensures
        chunk_bytes(from, id, index, total, name, data).len() <= MAX_PLAINTEXT,
{
    crate::text::lemma_cut_fits(from, MAX_NAME as nat);
    let file = filename_bytes(name);
    crate::bytes::lemma_be_len(id as nat, 8);
    crate::bytes::lemma_be_len(index as nat, 4);
    crate::bytes::lemma_be_len(total as nat, 4);
    crate::bytes::lemma_be_len(file.len(), 2);
}

/// How messages are laid out: the kind, 1 or 2; the sender's name, cut to 64
/// bytes, behind its length; then the text, or the transfer's number, the
/// piece's place, the number of pieces, the first 255 bytes of the file's name
/// behind their length, and the piece.
pub proof fn law_messages_are_laid_out(
    from: Seq<char>,
    text: Seq<char>,
    id: u64,
    index: u32,
    total: u32,
    name: Seq<char>,
    data: Seq<u8>,
)
    ensures
        ({
            let sender = vstd::utf8::encode_utf8(crate::text::cut(from, 64));
            let whole = vstd::utf8::encode_utf8(name);
            let file = whole.take(
                if whole.len() < 255 {
                    whole.len() as int
                } else {
                    255
                },
            );
            &&& sender.len() <= 64
            &&& text_bytes(from, text) == seq![1u8, sender.len() as u8] + sender
                + vstd::utf8::encode_utf8(text)
            &&& chunk_bytes(from, id, index, total, name, data) == seq![2u8, sender.len() as u8]
                + sender + crate::bytes::be(id as nat, 8) + crate::bytes::be(index as nat, 4)
                + crate::bytes::be(total as nat, 4) + crate::bytes::be(file.len(), 2) + file + data
        }),
{
    let sender = vstd::utf8::encode_utf8(crate::text::cut(from, 64));
    let whole = vstd::utf8::encode_utf8(name);
    crate::text::lemma_cut_fits(from, 64);
    if whole.len() <= 255 {
        assert(whole.take(whole.len() as int) =~= whole);
    }
    let file = filename_bytes(name);
    assert(text_bytes(from, text) =~= seq![1u8, sender.len() as u8] + sender
        + vstd::utf8::encode_utf8(text));
    assert(chunk_bytes(from, id, index, total, name, data) =~= seq![2u8, sender.len() as u8]
        + sender + crate::bytes::be(id as nat, 8) + crate::bytes::be(index as nat, 4)
        + crate::bytes::be(total as nat, 4) + crate::bytes::be(file.len(), 2) + file + data);
}

/// Which bytes are a message, and what they say. Nothing else is one: no other
/// kind, nothing that ends too early or is not UTF-8, and no piece that is not
/// one of at most 100,000.
pub proof fn law_what_a_message_is(raw: Seq<u8>)
    ensures
        ({
            let n = raw[1] as int;
            let sender = raw.subrange(2, 2 + n);
            let body = raw.skip(2 + n);
            let id = crate::bytes::be_value(body.subrange(0, 8));
            let index = crate::bytes::be_value(body.subrange(8, 12));
            let total = crate::bytes::be_value(body.subrange(12, 16));
            let k = crate::bytes::be_value(body.subrange(16, 18)) as int;
            let name = body.subrange(18, 18 + k);
            let named = raw.len() >= 2 && raw.len() >= 2 + n && vstd::utf8::valid_utf8(sender);
            let is_text = named && raw[0] == 1 && vstd::utf8::valid_utf8(body);
            let is_file = named && raw[0] == 2 && body.len() >= 18 && body.len() >= 18 + k
                && vstd::utf8::valid_utf8(name) && index < total <= 100_000;
            decoded(raw) == (if is_text {
                Some(
                    crate::message::IncomingView::Text {
                        from: vstd::utf8::decode_utf8(sender),
                        text: vstd::utf8::decode_utf8(body),
                    },
                )
            } else if is_file {
                Some(
                    crate::message::IncomingView::File {
                        from: vstd::utf8::decode_utf8(sender),
                        id: id as u64,
                        index: index as u32,
                        total: total as u32,
                        name: vstd::utf8::decode_utf8(name),
                        data: body.skip(18 + k),
                    },
                )
            } else {
                None
            })
        }),
{
    let n = raw[1] as int;
    if raw.len() >= 2 + n {
        let body = raw.skip(2 + n);
        assert(raw.skip(2).take(n) =~= raw.subrange(2, 2 + n));
        assert(raw.skip(2).skip(n) =~= body);
        if body.len() >= 18 {
            let k = crate::bytes::be_value(body.subrange(16, 18)) as int;
            if body.len() >= 18 + k {
                assert(body.skip(18).take(k) =~= body.subrange(18, 18 + k));
                assert(body.skip(18).skip(k) =~= body.skip(18 + k));
            }
        }
    }
}

} // verus!
