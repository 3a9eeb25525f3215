//! What a message looks like once it is decrypted.
//!
//! The encrypted frame carries bytes; this decides what those bytes mean. A
//! message is a kind, the sender's chosen name, and a payload — text, or one
//! piece of a file.
//!
//! Files have to be cut up: a single message holds at most 32 KiB of plaintext
//! ([`MAX_PLAINTEXT`](crate::frame::MAX_PLAINTEXT)), and a photo is comfortably
//! larger than that. Each piece travels as an ordinary encrypted message, so a
//! file gets exactly the same protection as anything else said in the room, and
//! the transport never learns it is carrying a file at all.

use vstd::prelude::*;
use vstd::slice::{slice_subrange, slice_to_vec};
use crate::bytes::{push_be, read_be};
use crate::frame::MAX_PLAINTEXT;
use crate::text::{chars_of, control, string_of, text_of, trim_end, truncate, white_space};

verus! {

/// A text message.
pub const KIND_TEXT: u8 = 1;

/// One piece of a file.
pub const KIND_FILE: u8 = 2;

/// How much file data rides in one message.
///
/// Under the plaintext limit with room for the header, and a round number so a
/// transfer's piece count is easy to reason about when something goes wrong.
pub const CHUNK: usize = 30_000;

/// Names are bounded so a hostile peer cannot spend the whole message on one.
pub const MAX_NAME: usize = 64;

pub const MAX_FILENAME: usize = 255;

/// The most pieces one transfer may be cut into, and so the largest file that
/// can cross: `MAX_CHUNKS * CHUNK`, a little over 61 MB.
///
/// This is a memory bound, not a preference: the receiver allocates room for
/// every piece the sender claims is coming.
pub const MAX_CHUNKS: u32 = 2048;

/// A message as the receiver sees it.
#[derive(Debug, PartialEq, Eq)]
pub enum Incoming {
    Text { from: String, text: String },
    /// One piece of a file. `id` groups the pieces of a single transfer;
    /// pieces of different transfers can arrive interleaved.
    File { from: String, id: u64, index: u32, total: u32, name: String, data: Vec<u8> },
}

/// What a message says.
pub enum IncomingView {
    Text { from: Seq<char>, text: Seq<char> },
    File {
        from: Seq<char>,
        id: u64,
        index: u32,
        total: u32,
        name: Seq<char>,
        data: Seq<u8>,
    },
}

impl View for Incoming {
    type V = IncomingView;

    open spec fn view(&self) -> IncomingView {
        match *self {
            Incoming::Text { from, text } => IncomingView::Text { from: from@, text: text@ },
            Incoming::File { from, id, index, total, name, data } => IncomingView::File {
                from: from@,
                id,
                index,
                total,
                name: name@,
                data: data@,
            },
        }
    }
}

/// Characters that let a name lie about what it is.
///
/// A right-to-left override reverses everything after it when displayed, so
/// `holiday\u{202E}gnp.exe` reads as `holidayexe.png` on screen while the file
/// it saves is still an executable. Control characters can blank or overwrite
/// parts of a line the same way.
pub open spec fn is_deceptive(c: char) -> bool {
    let n = c as u32;
    ||| crate::text::is_control(c)
    ||| n == 0x200e
    ||| n == 0x200f
    ||| n == 0x061c
    ||| 0x202a <= n <= 0x202e
    ||| 0x2066 <= n <= 0x2069
}

/// Whether `c` lets a name lie about what it is.
fn deceptive(c: char) -> (yes: bool)
    ensures
        yes == is_deceptive(c),
{
    let n: u32 = c as u32;
    control(c) || n == 0x200e || n == 0x200f || n == 0x061c || (0x202a <= n && n <= 0x202e) || (
    0x2066 <= n && n <= 0x2069)
}

/// A text without its deceptive characters.
pub open spec fn honest(s: Seq<char>) -> Seq<char>
    decreases s.len(),
{
    if s.len() == 0 {
        s
    } else if is_deceptive(s.last()) {
        honest(s.drop_last())
    } else {
        honest(s.drop_last()).push(s.last())
    }
}

/// A character as it may stand in a filename.
pub open spec fn filename_char(c: char) -> char {
    if c == '/' || c == '\\' || is_deceptive(c) {
        '_'
    } else {
        c
    }
}

/// A name without the dots and white space it begins with. A leading dot hides
/// the file on Unix, and a name that is only dots is `..`.
pub open spec fn undotted(s: Seq<char>) -> Seq<char>
    decreases s.len(),
{
    if s.len() > 0 && (s[0] == '.' || crate::text::is_white_space(s[0])) {
        undotted(s.skip(1))
    } else {
        s
    }
}

/// A peer's filename made safe to show and to save under.
pub open spec fn sanitized(name: Seq<char>) -> Seq<char> {
    let marked = name.map_values(|c: char| filename_char(c));
    let bare = crate::text::trimmed_end(undotted(marked));
    let short = crate::text::cut(bare, MAX_FILENAME as nat);
    if short.len() == 0 {
        "file"@
    } else {
        short
    }
}

/// A name behind its length, cut to `max` bytes.
pub open spec fn name_field(s: Seq<char>, max: nat) -> Seq<u8> {
    let name = crate::text::utf8(crate::text::cut(s, max));
    seq![name.len() as u8] + name
}

/// The bytes of a text message.
pub open spec fn text_bytes(from: Seq<char>, text: Seq<char>) -> Seq<u8> {
    seq![KIND_TEXT] + name_field(from, MAX_NAME as nat) + crate::text::utf8(text)
}

/// The bytes of one piece of a file.
pub open spec fn chunk_bytes(
    from: Seq<char>,
    id: u64,
    index: u32,
    total: u32,
    name: Seq<char>,
    data: Seq<u8>,
) -> Seq<u8> {
    let file = crate::text::utf8(crate::text::cut(name, MAX_FILENAME as nat));
    seq![KIND_FILE] + name_field(from, MAX_NAME as nat) + crate::bytes::be(id as nat, 8)
        + crate::bytes::be(index as nat, 4) + crate::bytes::be(total as nat, 4) + crate::bytes::be(
        file.len(),
        2,
    ) + file + data
}

/// What the part of a file message behind the sender's name says, or `None`.
pub open spec fn decoded_file(from: Seq<char>, body: Seq<u8>) -> Option<IncomingView> {
    let id = crate::bytes::be_value(body.subrange(0, 8));
    let index = crate::bytes::be_value(body.subrange(8, 12));
    let total = crate::bytes::be_value(body.subrange(12, 16));
    let n = crate::bytes::be_value(body.subrange(16, 18)) as int;
    let rest = body.skip(18);
    if body.len() < 18 || rest.len() < n || n > MAX_FILENAME || total == 0 || index >= total || total
        > MAX_CHUNKS || rest.skip(n).len() > CHUNK {
        None
    } else {
        match crate::text::utf8_text(rest.take(n)) {
            None => None,
            Some(name) => Some(
                IncomingView::File {
                    from,
                    id: id as u64,
                    index: index as u32,
                    total: total as u32,
                    name: sanitized(name),
                    data: rest.skip(n),
                },
            ),
        }
    }
}

/// What a message says, or `None` if it is malformed.
pub open spec fn decoded(raw: Seq<u8>) -> Option<IncomingView> {
    let n = raw[1] as int;
    let rest = raw.skip(2);
    if raw.len() < 2 || n > MAX_NAME || rest.len() < n {
        None
    } else {
        match crate::text::utf8_text(rest.take(n)) {
            None => None,
            Some(name) => {
                let from = honest(name);
                let body = rest.skip(n);
                if raw[0] == KIND_TEXT {
                    match crate::text::utf8_text(body) {
                        None => None,
                        Some(text) => Some(IncomingView::Text { from, text }),
                    }
                } else if raw[0] == KIND_FILE {
                    decoded_file(from, body)
                } else {
                    None
                }
            },
        }
    }
}

fn put_str(out: &mut Vec<u8>, s: &str, max: usize)
    requires
        max <= 255,
    ensures
        final(out)@ == old(out)@ + name_field(s@, max as nat),
{
    let chars: Vec<char> = chars_of(s);
    let short: String = string_of(truncate(chars.as_slice(), max));
    let bytes: &[u8] = short.as_str().as_bytes();
    proof {
        crate::text::lemma_cut_fits(s@, max as nat);
    }
    out.push(bytes.len() as u8);
    out.extend_from_slice(bytes);
    assert(out@ =~= old(out)@ + name_field(s@, max as nat));
}

/// Take the deceptive characters out of a name.
fn make_honest(chars: &[char]) -> (r: String)
    ensures
        r@ == honest(chars@),
{
    let mut r: String = String::new();
    let mut i: usize = 0;
    while i < chars.len()
        invariant
            i <= chars@.len(),
            r@ == honest(chars@.take(i as int)),
        decreases chars@.len() - i,
    {
        let c: char = chars[i];
        proof {
            let next = chars@.take(i + 1);
            assert(next.drop_last() =~= chars@.take(i as int));
            assert(next.last() == c);
        }
        if !deceptive(c) {
            r.push(c);
        }
        i = i + 1;
    }
    assert(chars@.take(i as int) =~= chars@);
    r
}

/// Cut the dots and the white space off the front.
fn strip_dots(s: &[char]) -> (r: &[char])
    ensures
        r@ == undotted(s@),
{
    let mut i: usize = 0;
    assert(s@.skip(0) =~= s@);
    while i < s.len() && (s[i] == '.' || white_space(s[i]))
        invariant
            i <= s@.len(),
            undotted(s@) == undotted(s@.skip(i as int)),
        decreases s@.len() - i,
    {
        i = i + 1;
        assert(s@.skip(i - 1).skip(1) =~= s@.skip(i as int));
    }
    assert(s@.subrange(i as int, s@.len() as int) =~= s@.skip(i as int));
    slice_subrange(s, i, s.len())
}

/// Make a peer's filename safe to show and to hand to a save dialog.
///
/// The name is chosen entirely by the other side. It reaches a download
/// attribute and an on-screen label, so it must not contain path separators,
/// must not be able to misrepresent its own extension, and must not be able to
/// name a parent directory.
pub fn sanitize_filename(name: &str) -> (r: String)
    ensures
        r@ == sanitized(name@),
{
    let chars: Vec<char> = chars_of(name);
    let ghost marked = name@.map_values(|c: char| filename_char(c));
    let mut cleaned: Vec<char> = Vec::new();
    let mut i: usize = 0;
    while i < chars.len()
        invariant
            i <= chars@.len(),
            chars@ == name@,
            marked == name@.map_values(|c: char| filename_char(c)),
            cleaned@ == marked.take(i as int),
        decreases chars@.len() - i,
    {
        let c: char = chars[i];
        if c == '/' || c == '\\' || deceptive(c) {
            cleaned.push('_');
        } else {
            cleaned.push(c);
        }
        i = i + 1;
        assert(marked.take(i as int) =~= marked.take(i - 1).push(marked[i - 1]));
    }
    assert(marked.take(i as int) =~= marked);
    let bare: &[char] = trim_end(strip_dots(cleaned.as_slice()));
    let short: &[char] = truncate(bare, MAX_FILENAME);
    if short.len() == 0 {
        "file".to_owned()
    } else {
        string_of(short)
    }
}

/// Write a text message.
pub fn encode_text(from: &str, text: &str) -> (out: Vec<u8>)
    ensures
        out@ == text_bytes(from@, text@),
{
    let mut out: Vec<u8> = Vec::new();
    out.push(KIND_TEXT);
    put_str(&mut out, from, MAX_NAME);
    out.extend_from_slice(text.as_bytes());
    assert(out@ =~= text_bytes(from@, text@));
    out
}

/// Write one piece of a file.
///
/// The name is cut on a character boundary. Slicing at a raw byte count would
/// split multi-byte characters, and the receiver rejects invalid UTF-8 by
/// treating the whole message as malformed.
pub fn encode_file_chunk(
    from: &str,
    id: u64,
    index: u32,
    total: u32,
    name: &str,
    data: &[u8],
) -> (out: Vec<u8>)
    requires
        chunk_bytes(from@, id, index, total, name@, data@).len() <= MAX_PLAINTEXT,
    ensures
        out@ == chunk_bytes(from@, id, index, total, name@, data@),
{
    let mut out: Vec<u8> = Vec::new();
    out.push(KIND_FILE);
    put_str(&mut out, from, MAX_NAME);
    push_be(&mut out, id, 8);
    push_be(&mut out, index as u64, 4);
    push_be(&mut out, total as u64, 4);
    let chars: Vec<char> = chars_of(name);
    let short: String = string_of(truncate(chars.as_slice(), MAX_FILENAME));
    let bytes: &[u8] = short.as_str().as_bytes();
    push_be(&mut out, bytes.len() as u64, 2);
    out.extend_from_slice(bytes);
    out.extend_from_slice(data);
    assert(out@ =~= chunk_bytes(from@, id, index, total, name@, data@));
    out
}

/// Read a message, or `None` if it is malformed.
///
/// Every field is length-checked before it is read. The peer is authenticated,
/// but a bug on their side should still not be able to walk this off the end of
/// the buffer.
pub fn decode(raw: &[u8]) -> (r: Option<Incoming>)
    ensures
        match r {
            Some(m) => decoded(raw@) == Some(m@),
            None => decoded(raw@) is None,
        },
{
    if raw.len() < 2 {
        return None;
    }
    let kind: u8 = raw[0];
    let name_len: usize = raw[1] as usize;
    let rest: &[u8] = slice_subrange(raw, 2, raw.len());
    assert(rest@ =~= raw@.skip(2));
    if name_len > MAX_NAME || rest.len() < name_len {
        return None;
    }
    let name: &[u8] = slice_subrange(rest, 0, name_len);
    let body: &[u8] = slice_subrange(rest, name_len, rest.len());
    assert(name@ =~= rest@.take(name_len as int));
    assert(body@ =~= rest@.skip(name_len as int));
    let from: String = match text_of(name) {
        None => {
            return None;
        },
        Some(s) => {
            let chars: Vec<char> = chars_of(s.as_str());
            make_honest(chars.as_slice())
        },
    };
    if kind == KIND_TEXT {
        match text_of(body) {
            None => None,
            Some(text) => Some(Incoming::Text { from, text }),
        }
    } else if kind == KIND_FILE {
        decode_file(from, body)
    } else {
        None
    }
}

fn decode_file(from: String, body: &[u8]) -> (r: Option<Incoming>)
    ensures
        match r {
            Some(m) => decoded_file(from@, body@) == Some(m@),
            None => decoded_file(from@, body@) is None,
        },
{
    if body.len() < 18 {
        return None;
    }
    proof {
        crate::bytes::lemma_pow256_widths();
    }
    let id: u64 = read_be(body, 0, 8);
    let index: u64 = read_be(body, 8, 4);
    let total: u64 = read_be(body, 12, 4);
    let name_len: usize = read_be(body, 16, 2) as usize;
    let rest: &[u8] = slice_subrange(body, 18, body.len());
    assert(rest@ =~= body@.skip(18));
    if rest.len() < name_len || name_len > MAX_FILENAME {
        return None;
    }
    let name: &[u8] = slice_subrange(rest, 0, name_len);
    let data: &[u8] = slice_subrange(rest, name_len, rest.len());
    assert(name@ =~= rest@.take(name_len as int));
    assert(data@ =~= rest@.skip(name_len as int));
    // A transfer claiming more pieces than could ever be sent is a bug or an
    // attempt to make the receiver hold memory for nothing.
    if total == 0 || index >= total || total > MAX_CHUNKS as u64 {
        return None;
    }
    // We never send more than `CHUNK` in a piece, so nobody honest ever sends
    // more.
    if data.len() > CHUNK {
        return None;
    }
    match text_of(name) {
        None => None,
        Some(s) => Some(
            Incoming::File {
                from,
                id,
                index: index as u32,
                total: total as u32,
                name: sanitize_filename(s.as_str()),
                data: slice_to_vec(data),
            },
        ),
    }
}

proof fn lemma_name_field(s: Seq<char>, max: nat)
    requires
        max <= 255,
    ensures
        ({
            let name = crate::text::utf8(crate::text::cut(s, max));
            &&& name.len() <= max
            &&& name_field(s, max).len() == 1 + name.len()
            &&& name_field(s, max)[0] == name.len()
            &&& name_field(s, max).skip(1) == name
        }),
{
    crate::text::lemma_cut_fits(s, max);
    let name = crate::text::utf8(crate::text::cut(s, max));
    assert(name_field(s, max).skip(1) =~= name);
}

/// Every text message is read as it was written. The sender's name arrives cut
/// to 64 bytes and without deceptive characters; the text arrives whole.
pub proof fn law_text_round_trips(from: Seq<char>, text: Seq<char>)
    ensures
        decoded(text_bytes(from, text)) == Some(
            IncomingView::Text { from: honest(crate::text::cut(from, MAX_NAME as nat)), text },
        ),
{
    let raw = text_bytes(from, text);
    let short = crate::text::cut(from, MAX_NAME as nat);
    let name = crate::text::utf8(short);
    lemma_name_field(from, MAX_NAME as nat);
    assert(raw.skip(2) =~= name + crate::text::utf8(text));
    assert(raw.skip(2).take(name.len() as int) =~= name);
    assert(raw.skip(2).skip(name.len() as int) =~= crate::text::utf8(text));
    crate::text::lemma_utf8_round_trip(short);
    crate::text::lemma_utf8_round_trip(text);
}

/// Every piece of a file that an honest sender sends is read as it was
/// written, whatever script its name is in. The filename arrives cut to 255
/// bytes and sanitized; the data arrives whole.
pub proof fn law_file_chunks_round_trip(
    from: Seq<char>,
    id: u64,
    index: u32,
    total: u32,
    name: Seq<char>,
    data: Seq<u8>,
)
    requires
        0 < total <= MAX_CHUNKS,
        index < total,
        data.len() <= CHUNK,
    ensures
        decoded(chunk_bytes(from, id, index, total, name, data)) == Some(
            IncomingView::File {
                from: honest(crate::text::cut(from, MAX_NAME as nat)),
                id,
                index,
                total,
                name: sanitized(crate::text::cut(name, MAX_FILENAME as nat)),
                data,
            },
        ),
{
    let raw = chunk_bytes(from, id, index, total, name, data);
    let short = crate::text::cut(from, MAX_NAME as nat);
    let sender = crate::text::utf8(short);
    let short_file = crate::text::cut(name, MAX_FILENAME as nat);
    let file = crate::text::utf8(short_file);
    lemma_name_field(from, MAX_NAME as nat);
    crate::text::lemma_cut_fits(name, MAX_FILENAME as nat);
    let id_bytes = crate::bytes::be(id as nat, 8);
    let index_bytes = crate::bytes::be(index as nat, 4);
    let total_bytes = crate::bytes::be(total as nat, 4);
    let len_bytes = crate::bytes::be(file.len(), 2);
    crate::bytes::lemma_be_len(id as nat, 8);
    crate::bytes::lemma_be_len(index as nat, 4);
    crate::bytes::lemma_be_len(total as nat, 4);
    crate::bytes::lemma_be_len(file.len(), 2);
    crate::bytes::lemma_pow256_widths();
    crate::bytes::lemma_be_round_trip(id as nat, 8);
    crate::bytes::lemma_be_round_trip(index as nat, 4);
    crate::bytes::lemma_be_round_trip(total as nat, 4);
    crate::bytes::lemma_be_round_trip(file.len(), 2);
    let body = id_bytes + index_bytes + total_bytes + len_bytes + file + data;
    assert(raw.skip(2) =~= sender + body);
    assert(raw.skip(2).take(sender.len() as int) =~= sender);
    assert(raw.skip(2).skip(sender.len() as int) =~= body);
    assert(body.subrange(0, 8) =~= id_bytes);
    assert(body.subrange(8, 12) =~= index_bytes);
    assert(body.subrange(12, 16) =~= total_bytes);
    assert(body.subrange(16, 18) =~= len_bytes);
    assert(body.skip(18).take(file.len() as int) =~= file);
    assert(body.skip(18).skip(file.len() as int) =~= data);
    crate::text::lemma_utf8_round_trip(short);
    crate::text::lemma_utf8_round_trip(short_file);
}

/// A full-size piece plus its header fits in one message, whatever the names.
pub proof fn law_a_full_chunk_fits_in_one_message(
    from: Seq<char>,
    id: u64,
    index: u32,
    total: u32,
    name: Seq<char>,
    data: Seq<u8>,
)
    requires
        data.len() <= CHUNK,
    ensures
        chunk_bytes(from, id, index, total, name, data).len() <= MAX_PLAINTEXT,
{
    lemma_name_field(from, MAX_NAME as nat);
    crate::text::lemma_cut_fits(name, MAX_FILENAME as nat);
    let file = crate::text::utf8(crate::text::cut(name, MAX_FILENAME as nat));
    crate::bytes::lemma_be_len(id as nat, 8);
    crate::bytes::lemma_be_len(index as nat, 4);
    crate::bytes::lemma_be_len(total as nat, 4);
    crate::bytes::lemma_be_len(file.len(), 2);
}

/// What is decoded keeps to the limits, whoever encoded it: a piece is no
/// larger than a chunk, there are no more pieces than a transfer may have, and
/// its index is one of them.
pub proof fn law_decoding_bounds_what_a_peer_can_claim(raw: Seq<u8>)
    ensures
        decoded(raw) matches Some(IncomingView::File { index, total, data, .. }) ==> 0 < total
            <= MAX_CHUNKS && index < total && data.len() <= CHUNK,
{
    crate::bytes::lemma_be_of_value(raw.skip(2).skip(raw[1] as int).subrange(8, 12));
    crate::bytes::lemma_be_of_value(raw.skip(2).skip(raw[1] as int).subrange(12, 16));
    crate::bytes::lemma_pow256_widths();
}

/// Whether no character of a text is deceptive.
pub open spec fn is_honest(s: Seq<char>) -> bool {
    forall|i: int| 0 <= i < s.len() ==> !is_deceptive(#[trigger] s[i])
}

/// A sender's name never keeps a deceptive character, and an honest name is
/// kept as it is.
pub proof fn law_sender_names_are_honest(s: Seq<char>)
    ensures
        is_honest(honest(s)),
        is_honest(s) ==> honest(s) == s,
    decreases s.len(),
{
    if s.len() > 0 {
        law_sender_names_are_honest(s.drop_last());
        if is_honest(s) {
            assert forall|i: int| 0 <= i < s.drop_last().len() implies !is_deceptive(
                #[trigger] s.drop_last()[i],
            ) by {
                assert(!is_deceptive(s[i]));
            }
            assert(honest(s) =~= s);
        }
    }
}

/// Whether a filename is safe: nothing in it is a path separator or deceptive,
/// it does not begin with a dot, and it is not empty.
pub open spec fn is_safe_filename(s: Seq<char>) -> bool {
    &&& s.len() > 0
    &&& s[0] != '.'
    &&& forall|i: int|
        0 <= i < s.len() ==> (#[trigger] s[i]) != '/' && s[i] != '\\' && !is_deceptive(s[i])
}

proof fn lemma_undotted(s: Seq<char>)
    ensures
        undotted(s).len() <= s.len(),
        undotted(s) == s.skip(s.len() - undotted(s).len()),
        undotted(s).len() > 0 ==> undotted(s)[0] != '.' && !crate::text::is_white_space(
            undotted(s)[0],
        ),
    decreases s.len(),
{
    if s.len() > 0 && (s[0] == '.' || crate::text::is_white_space(s[0])) {
        lemma_undotted(s.skip(1));
        let n = s.len() - undotted(s).len();
        assert(s.skip(1).skip(n - 1) =~= s.skip(n));
    } else {
        assert(s.skip(0) =~= s);
    }
}

proof fn lemma_trimmed_end(s: Seq<char>)
    ensures
        crate::text::trimmed_end(s).len() <= s.len(),
        crate::text::trimmed_end(s) == s.take(crate::text::trimmed_end(s).len() as int),
    decreases s.len(),
{
    if s.len() > 0 && crate::text::is_white_space(s.last()) {
        lemma_trimmed_end(s.drop_last());
        let n = crate::text::trimmed_end(s).len() as int;
        assert(s.drop_last().take(n) =~= s.take(n));
    } else {
        assert(s.take(s.len() as int) =~= s);
    }
}

/// A sanitized filename is safe and at most 255 bytes long, whatever the peer
/// chose; so it cannot name a parent directory.
pub proof fn law_sanitized_filenames_are_safe(name: Seq<char>)
    ensures
        is_safe_filename(sanitized(name)),
        crate::text::utf8(sanitized(name)).len() <= MAX_FILENAME,
        sanitized(name) != ".."@,
{
    let marked = name.map_values(|c: char| filename_char(c));
    let bare = undotted(marked);
    let trimmed = crate::text::trimmed_end(bare);
    let short = crate::text::cut(trimmed, MAX_FILENAME as nat);
    lemma_undotted(marked);
    lemma_trimmed_end(bare);
    crate::text::lemma_cut_fits(trimmed, MAX_FILENAME as nat);
    reveal_strlit("file");
    reveal_strlit("..");
    if short.len() == 0 {
        vstd::utf8::is_ascii_chars_encode_utf8("file"@);
    } else {
        assert forall|i: int| 0 <= i < short.len() implies (#[trigger] short[i]) != '/' && short[i]
            != '\\' && !is_deceptive(short[i]) by {
            let j = i + (marked.len() - bare.len());
            assert(short[i] == trimmed[i]);
            assert(trimmed[i] == bare[i]);
            assert(bare[i] == marked[j]);
            assert(marked[j] == filename_char(name[j]));
        }
        assert(short[0] == bare[0]);
    }
}

/// A filename that is safe already, fits, and has no white space at its ends,
/// is kept as it is.
pub proof fn law_safe_filenames_are_kept(name: Seq<char>)
    requires
        is_safe_filename(name),
        !crate::text::is_white_space(name[0]),
        !crate::text::is_white_space(name.last()),
        crate::text::utf8(name).len() <= MAX_FILENAME,
    ensures
        sanitized(name) == name,
{
    assert(name.map_values(|c: char| filename_char(c)) =~= name);
}

/// How messages are laid out: the kind, 1 or 2; the sender's name, cut to 64
/// bytes, behind its length; then the text, or the transfer's number, the
/// piece's place, the number of pieces, the file's name, cut to 255 bytes,
/// behind its length, and the piece.
pub proof fn law_messages_are_laid_out(
    from: Seq<char>,
    text: Seq<char>,
    id: u64,
    index: u32,
    total: u32,
    name: Seq<char>,
    data: Seq<u8>,
)
    ensures
        ({
            let sender = vstd::utf8::encode_utf8(crate::text::cut(from, 64));
            let file = vstd::utf8::encode_utf8(crate::text::cut(name, 255));
            &&& sender.len() <= 64
            &&& text_bytes(from, text) == seq![1u8, sender.len() as u8] + sender
                + vstd::utf8::encode_utf8(text)
            &&& chunk_bytes(from, id, index, total, name, data) == seq![2u8, sender.len() as u8]
                + sender + crate::bytes::be(id as nat, 8) + crate::bytes::be(index as nat, 4)
                + crate::bytes::be(total as nat, 4) + crate::bytes::be(file.len(), 2) + file + data
        }),
{
    let sender = vstd::utf8::encode_utf8(crate::text::cut(from, 64));
    let file = vstd::utf8::encode_utf8(crate::text::cut(name, 255));
    crate::text::lemma_cut_fits(from, 64);
    assert(text_bytes(from, text) =~= seq![1u8, sender.len() as u8] + sender
        + vstd::utf8::encode_utf8(text));
    assert(chunk_bytes(from, id, index, total, name, data) =~= seq![2u8, sender.len() as u8]
        + sender + crate::bytes::be(id as nat, 8) + crate::bytes::be(index as nat, 4)
        + crate::bytes::be(total as nat, 4) + crate::bytes::be(file.len(), 2) + file + data);
}

/// Which bytes are a text message, and what they say: kind 1, a name of at most
/// 64 bytes behind its length, and the text, both in UTF-8. Nothing else is one.
pub proof fn law_what_a_text_message_is(raw: Seq<u8>)
    ensures
        ({
            let n = raw[1] as int;
            let name = raw.subrange(2, 2 + n);
            let body = raw.skip(2 + n);
            let well_formed = raw.len() >= 2 && raw[0] == 1 && n <= 64 && raw.len() >= 2 + n
                && vstd::utf8::valid_utf8(name) && vstd::utf8::valid_utf8(body);
            &&& well_formed ==> decoded(raw) == Some(
                IncomingView::Text {
                    from: honest(vstd::utf8::decode_utf8(name)),
                    text: vstd::utf8::decode_utf8(body),
                },
            )
            &&& (decoded(raw) matches Some(IncomingView::Text { .. })) ==> well_formed
        }),
{
    let n = raw[1] as int;
    if raw.len() >= 2 + n {
        assert(raw.skip(2).take(n) =~= raw.subrange(2, 2 + n));
        assert(raw.skip(2).skip(n) =~= raw.skip(2 + n));
    }
}

/// Which bytes are a piece of a file, and what they say. Nothing is that claims
/// more than 2048 pieces, or a place that is not one of them, or that holds more
/// than 30,000 bytes, or whose names are too long.
pub proof fn law_what_a_file_message_is(raw: Seq<u8>)
    ensures
        ({
            let n = raw[1] as int;
            let sender = raw.subrange(2, 2 + n);
            let body = raw.skip(2 + n);
            let id = crate::bytes::be_value(body.subrange(0, 8));
            let index = crate::bytes::be_value(body.subrange(8, 12));
            let total = crate::bytes::be_value(body.subrange(12, 16));
            let k = crate::bytes::be_value(body.subrange(16, 18)) as int;
            let name = body.subrange(18, 18 + k);
            let data = body.skip(18 + k);
            let well_formed = raw.len() >= 2 && raw[0] == 2 && n <= 64 && raw.len() >= 2 + n + 18
                && vstd::utf8::valid_utf8(sender) && k <= 255 && body.len() >= 18 + k
                && vstd::utf8::valid_utf8(name) && index < total <= 2048 && data.len() <= 30_000;
            &&& well_formed ==> decoded(raw) == Some(
                IncomingView::File {
                    from: honest(vstd::utf8::decode_utf8(sender)),
                    id: id as u64,
                    index: index as u32,
                    total: total as u32,
                    name: sanitized(vstd::utf8::decode_utf8(name)),
                    data,
                },
            )
            &&& (decoded(raw) matches Some(IncomingView::File { .. })) ==> well_formed
        }),
{
    let n = raw[1] as int;
    if raw.len() >= 2 + n {
        let body = raw.skip(2 + n);
        assert(raw.skip(2).take(n) =~= raw.subrange(2, 2 + n));
        assert(raw.skip(2).skip(n) =~= body);
        if body.len() >= 18 {
            let k = crate::bytes::be_value(body.subrange(16, 18)) as int;
            if body.len() >= 18 + k {
                assert(body.skip(18).take(k) =~= body.subrange(18, 18 + k));
                assert(body.skip(18).skip(k) =~= body.skip(18 + k));
            }
        }
    }
}

/// Which characters deceive: control characters, and those that change the
/// direction in which a text is shown.
pub proof fn law_what_deceives(c: char)
    ensures
        is_deceptive(c) <==> c <= '\u{1f}' || '\u{7f}' <= c <= '\u{9f}' || c == '\u{200e}' || c
            == '\u{200f}' || c == '\u{61c}' || '\u{202a}' <= c <= '\u{202e}' || '\u{2066}' <= c
            <= '\u{2069}',
{
}

/// A sender's name loses its deceptive characters and nothing else: part by
/// part, and character by character.
pub proof fn law_names_lose_only_what_deceives(a: Seq<char>, b: Seq<char>, c: char)
    ensures
        honest(a + b) == honest(a) + honest(b),
        honest(seq![c]) == (if is_deceptive(c) {
            Seq::empty()
        } else {
            seq![c]
        }),
    decreases b.len(),
{
    reveal_with_fuel(honest, 2);
    assert(seq![c].drop_last() =~= Seq::<char>::empty());
    assert(honest(seq![c]) =~= (if is_deceptive(c) {
        Seq::empty()
    } else {
        seq![c]
    }));
    if b.len() == 0 {
        assert(a + b =~= a);
        assert(honest(a) + honest(b) =~= honest(a));
    } else {
        law_names_lose_only_what_deceives(a, b.drop_last(), c);
        assert((a + b).drop_last() =~= a + b.drop_last());
        assert(honest(a + b) =~= honest(a) + honest(b));
    }
}

/// A filename that needs no cutting and begins with neither a dot nor white
/// space keeps its length: each path separator and each deceptive character
/// becomes an underscore, and every other character stays.
pub proof fn law_filenames_change_in_place(name: Seq<char>, i: int)
    requires
        0 <= i < name.len(),
        ({
            let marked = name.map_values(|c: char| filename_char(c));
            &&& marked[0] != '.'
            &&& crate::text::has_bare_ends(marked)
            &&& crate::text::utf8(marked).len() <= 255
        }),
    ensures
        sanitized(name).len() == name.len(),
        sanitized(name)[i] == (if name[i] == '/' || name[i] == '\\' || is_deceptive(name[i]) {
            '_'
        } else {
            name[i]
        }),
{
}

/// Dots and spaces in front of a filename are dropped, however many and in
/// whatever order; a name of which nothing is left is called `file`.
pub proof fn law_what_a_filename_begins_with_is_dropped(c: char, name: Seq<char>)
    requires
        c == '.' || c == ' ',
    ensures
        sanitized(seq![c] + name) == sanitized(name),
        sanitized(Seq::empty()) == "file"@,
{
    let whole = seq![c] + name;
    let marked = whole.map_values(|c: char| filename_char(c));
    assert(marked.skip(1) =~= name.map_values(|c: char| filename_char(c)));
    assert(marked[0] == c);
    assert(Seq::<char>::empty().map_values(|c: char| filename_char(c)) =~= Seq::empty());
}

} // verus!
