//! Length-prefixed framing and the peer handshake.
//!
//! A [`Handshake`] runs the SPAKE2 handshake over one established connection.
//! It is used identically by the host (over an accepted connection) and the
//! joiner (over a dialled one). Reading and writing the connection is up to the
//! caller: it writes what it is given and hands in what it has read.

use vstd::prelude::*;
use vstd::slice::{slice_subrange, slice_to_vec};
use crate::bytes::{push_be, read_be};
use crate::error::Error as ProtoError;
use crate::kdf::Derived;
use crate::session::{Event, Phase, Session};
use crate::status::TorError;

verus! {

/// Upper bound on a single frame. The largest legitimate frame is a 64 KiB
/// padding bucket plus AEAD and framing overhead.
pub const MAX_FRAME: usize = 128 * 1024;

/// Why no peer was connected.
#[derive(Debug)]
pub enum ConnectError {
    Tor(TorError),
    Protocol(ProtoError),
    /// The connection failed; what the system said about it.
    Io(String),
    /// No peer completed a handshake before the timeout.
    TimedOut,
}

/// What the user is told about an error.
pub open spec fn connect_error_text(e: ConnectError) -> Seq<char> {
    match e {
        ConnectError::Tor(e) => crate::status::tor_error_text(e),
        ConnectError::Protocol(e) => crate::error::error_text(e),
        ConnectError::Io(e) => "connection lost: "@ + e@,
        ConnectError::TimedOut => "the other person never arrived"@,
    }
}

impl ConnectError {
    /// The error in words, for the user.
    pub fn to_string(&self) -> (text: String)
        ensures
            text@ == connect_error_text(*self),
    {
        match self {
            ConnectError::Tor(e) => e.to_string(),
            ConnectError::Protocol(e) => e.to_string(),
            ConnectError::Io(e) => {
                let mut text: String = "connection lost: ".to_owned();
                text.append(e.as_str());
                text
            },
            ConnectError::TimedOut => "the other person never arrived".to_owned(),
        }
    }
}

/// The bytes that carry a frame: its big-endian length, then the frame.
pub open spec fn framed(f: Seq<u8>) -> Seq<u8> {
    crate::kdf::be32(f.len()) + f
}

/// The bytes to write to send a frame.
pub fn send_frame(f: &[u8]) -> (out: Vec<u8>)
    ensures
        out@ == framed(f@),
{
    let mut out: Vec<u8> = Vec::new();
    push_be(&mut out, f.len() as u64 % 0x1_0000_0000, 4);
    out.extend_from_slice(f);
    assert(out@ =~= framed(f@));
    out
}

/// How far the bytes received so far go towards a frame.
#[derive(Debug)]
pub enum Received {
    /// Read this many bytes more.
    Need(usize),
    /// The frame is complete.
    Frame(Vec<u8>),
    /// The frame exceeds the maximum size. Its length is not used to allocate.
    TooLarge,
}

/// What the bytes received so far amount to.
pub enum ReceivedView {
    Need(nat),
    Frame(Seq<u8>),
    TooLarge,
}

impl View for Received {
    type V = ReceivedView;

    open spec fn view(&self) -> ReceivedView {
        match *self {
            Received::Need(n) => ReceivedView::Need(n as nat),
            Received::Frame(f) => ReceivedView::Frame(f@),
            Received::TooLarge => ReceivedView::TooLarge,
        }
    }
}

/// What the bytes received since the last frame amount to: first the length,
/// then as many bytes as it says.
pub open spec fn received(bytes: Seq<u8>) -> ReceivedView {
    let n = crate::bytes::be_value(bytes.take(4));
    if bytes.len() < 4 {
        ReceivedView::Need((4 - bytes.len()) as nat)
    } else if n > MAX_FRAME {
        ReceivedView::TooLarge
    } else if bytes.len() < 4 + n {
        ReceivedView::Need((4 + n - bytes.len()) as nat)
    } else {
        ReceivedView::Frame(bytes.subrange(4, 4 + n as int))
    }
}

/// Read a frame out of the bytes received since the last one.
pub fn recv_frame(bytes: &[u8]) -> (r: Received)
    ensures
        r@ == received(bytes@),
{
    if bytes.len() < 4 {
        return Received::Need(4 - bytes.len());
    }
    let n: u64 = read_be(bytes, 0, 4);
    assert(bytes@.subrange(0, 4) =~= bytes@.take(4));
    if n > MAX_FRAME as u64 {
        return Received::TooLarge;
    }
    let n: usize = n as usize;
    if bytes.len() < 4 + n {
        return Received::Need(4 + n - bytes.len());
    }
    Received::Frame(slice_to_vec(slice_subrange(bytes, 4, 4 + n)))
}

/// A confirmed, encrypted connection to exactly one other person.
pub struct Connected<S> {
    pub session: Session,
    pub stream: S,
}

/// The SPAKE2 handshake over a single connection.
///
/// This is the whole security handshake, shared by both the host and the
/// joiner. It is symmetric — it does not care which side published the onion
/// service — so both ends run exactly this.
pub struct Handshake {
    session: Session,
}

impl View for Handshake {
    type V = crate::session::SessionView;

    closed spec fn view(&self) -> crate::session::SessionView {
        self.session@
    }
}

/// What to do next in a handshake.
#[derive(Debug)]
pub enum Step {
    /// Send this frame and wait for the next one.
    Send(Vec<u8>),
    /// The handshake is confirmed.
    Connected,
    /// The handshake failed.
    ///
    /// [`ProtoError::ConfirmMismatch`] and [`ProtoError::Reflection`] mean that
    /// this particular connection is not our peer: a stray connector, or
    /// someone who typed a different code.
    Failed(ConnectError),
}

/// What comes next after a frame, given what the session makes of it.
pub open spec fn step_after(
    outcome: Result<(crate::session::SessionView, crate::session::EventView), ProtoError>,
    step: Step,
) -> bool {
    match outcome {
        Ok((_, crate::session::EventView::Send(out))) => step matches Step::Send(f) && f@ == out,
        Ok((_, crate::session::EventView::Ready)) => step is Connected,
        Ok((_, crate::session::EventView::Message(_))) => step matches Step::Failed(
            ConnectError::Protocol(e),
        ) && e == ProtoError::WrongPhase,
        Err(why) => step matches Step::Failed(ConnectError::Protocol(e)) && e == why,
    }
}

impl Handshake {
    /// Begin a handshake. The second part is the frame to send first.
    pub fn start(derived: &Derived) -> (r: (Self, Vec<u8>))
        ensures
            r.0@.is_fresh(derived@),
            r.1@ == crate::frame::pake_bytes(r.0@.my_pake),
    {
        let session: Session = Session::from_derived(derived);
        let hello: Vec<u8> = session.pake_frame();
        (Handshake { session }, hello)
    }

    /// Take one frame from the peer.
    pub fn step(&mut self, frame: &[u8]) -> (step: Step)
        requires
            old(self)@.has_room(),
            old(self)@.can_read(frame@),
        ensures
            final(self)@ == old(self)@.after_frame(frame@),
            step_after(old(self)@.accepted(frame@), step),
            old(self)@.wf() ==> final(self)@.wf(),
            step is Connected ==> final(self)@.phase == Phase::Ready,
    {
        match self.session.handle(frame) {
            Ok(Event::Send(out)) => Step::Send(out),
            Ok(Event::Ready) => Step::Connected,
            // A message before Ready is impossible in a well-behaved peer.
            Ok(Event::Message(_)) => Step::Failed(ConnectError::Protocol(ProtoError::WrongPhase)),
            Err(e) => Step::Failed(ConnectError::Protocol(e)),
        }
    }

    /// Whether another frame can be taken.
    pub fn has_room(&self) -> (room: bool)
        ensures
            room == self@.has_room(),
    {
        self.session.has_room()
    }

    /// The session, once the handshake is confirmed.
    pub fn into_session(self) -> (session: Session)
        ensures
            session@ == self@,
    {
        self.session
    }
}

/// A frame that is not too large is received as it was sent, once all of it
/// has arrived and not before; until then exactly the missing bytes are asked
/// for in turn.
pub proof fn law_frames_round_trip(f: Seq<u8>, arrived: int)
    requires
        f.len() <= MAX_FRAME,
        0 <= arrived <= framed(f).len(),
    ensures
        received(framed(f)) == ReceivedView::Frame(f),
        arrived < 4 ==> received(framed(f).take(arrived)) == ReceivedView::Need(
            (4 - arrived) as nat,
        ),
        4 <= arrived < framed(f).len() ==> received(framed(f).take(arrived)) == ReceivedView::Need(
            (framed(f).len() - arrived) as nat,
        ),
{
    crate::bytes::lemma_be_len(f.len(), 4);
    crate::bytes::lemma_pow256_widths();
    crate::bytes::lemma_be_round_trip(f.len(), 4);
    assert(framed(f).take(4) =~= crate::kdf::be32(f.len()));
    assert(framed(f).subrange(4, 4 + f.len() as int) =~= f);
    if arrived >= 4 {
        assert(framed(f).take(arrived).take(4) =~= crate::kdf::be32(f.len()));
    }
}

/// A length header larger than the maximum is refused outright, whatever
/// follows it.
pub proof fn law_oversize_frames_are_refused(f: Seq<u8>, rest: Seq<u8>)
    requires
        MAX_FRAME < f.len() < 0x1_0000_0000,
    ensures
        received(framed(f)) == ReceivedView::TooLarge,
        received(crate::kdf::be32(f.len()) + rest) == ReceivedView::TooLarge,
{
    crate::bytes::lemma_be_len(f.len(), 4);
    crate::bytes::lemma_pow256_widths();
    crate::bytes::lemma_be_round_trip(f.len(), 4);
    assert(framed(f).take(4) =~= crate::kdf::be32(f.len()));
    assert((crate::kdf::be32(f.len()) + rest).take(4) =~= crate::kdf::be32(f.len()));
}

/// Every frame that a session sends fits: the largest padding bucket, its tag
/// and its header are well under the limit.
pub proof fn law_every_session_frame_fits(ctr: u64, plaintext: Seq<u8>, ct: Seq<u8>)
    requires
        plaintext.len() <= crate::frame::MAX_PLAINTEXT,
        ct.len() == crate::frame::padded(plaintext).len() + 16,
    ensures
        crate::frame::msg_bytes(ctr, ct).len() <= MAX_FRAME,
{
    crate::frame::law_padding_round_trips(plaintext);
    crate::bytes::lemma_be_len(ctr as nat, 8);
}

/// Whatever arrives as one frame is short enough for a session to read,
/// whatever its phase.
pub proof fn law_received_frames_can_be_read(bytes: Seq<u8>, s: crate::session::SessionView)
    requires
        received(bytes) is Frame,
    ensures
        s.can_read(received(bytes)->Frame_0),
{
}

/// A handshake either sends, succeeds or fails on a frame; before it is
/// confirmed no frame is taken for a message.
pub proof fn law_no_message_before_confirmation(
    s: crate::session::SessionView,
    raw: Seq<u8>,
    step: Step,
)
    requires
        s.phase != Phase::Ready,
        step_after(s.accepted(raw), step),
    ensures
        !(s.accepted(raw) matches Ok((_, crate::session::EventView::Message(_)))),
        step is Connected ==> s.after_frame(raw).phase == Phase::Ready,
{
}

/// A frame on the wire is its length in four bytes, most significant first, and
/// then the frame; frames of up to 131,072 bytes are taken, and none that is
/// longer.
pub proof fn law_frames_are_laid_out(f: Seq<u8>, bytes: Seq<u8>)
    requires
        f.len() < 0x1_0000_0000,
    ensures
        framed(f).len() == 4 + f.len(),
        framed(f).take(4) == crate::bytes::be(f.len(), 4),
        framed(f).skip(4) == f,
        received(framed(f)) == (if f.len() <= 131_072 {
            ReceivedView::Frame(f)
        } else {
            ReceivedView::TooLarge
        }),
        received(bytes) matches ReceivedView::Frame(got) ==> got.len() <= 131_072 && bytes.len() >= 4
            + got.len() && bytes.take(4 + got.len() as int) == framed(got),
{
    crate::bytes::lemma_be_len(f.len() % 0x1_0000_0000, 4);
    assert(framed(f).take(4) =~= crate::bytes::be(f.len(), 4));
    assert(framed(f).skip(4) =~= f);
    if f.len() <= MAX_FRAME {
        law_frames_round_trip(f, 0);
    } else {
        law_oversize_frames_are_refused(f, Seq::empty());
    }
    if let ReceivedView::Frame(got) = received(bytes) {
        crate::bytes::lemma_be_of_value(bytes.take(4));
        assert(bytes.take(4 + got.len() as int) =~= framed(got));
    }
}

/// A handshake is over when the session is confirmed or a frame is refused, and
/// not before: until then what the session has to say is sent.
pub proof fn law_when_a_handshake_is_over(
    s: crate::session::SessionView,
    raw: Seq<u8>,
    step: Step,
)
    requires
        s.phase != Phase::Ready,
        step_after(s.accepted(raw), step),
    ensures
        step is Connected <==> s.after_frame(raw).phase == Phase::Ready,
        step is Failed <==> s.accepted(raw) is Err,
        step matches Step::Failed(e) ==> (s.accepted(raw) matches Err(why) && e
            == ConnectError::Protocol(why)),
        step matches Step::Send(f) ==> (s.accepted(raw) matches Ok(
            (_, crate::session::EventView::Send(out)),
        ) && f@ == out),
{
}

} // verus!
