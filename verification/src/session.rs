//! The Narco session state machine: handshake, then ratcheted transport.
//!
//! Every protocol error is terminal. `handle` wipes all key material and moves
//! to [`Phase::Dead`] on any failure, so a session that has seen a bad frame can
//! never be coaxed back into carrying plaintext.

use vstd::prelude::*;
use crate::bytes::push_be;
use crate::crypto::{chacha_open, chacha_seal, ct_equal, hkdf_expand};
use crate::error::Error;
use crate::frame::{self, Frame};
use crate::kdf::{self, Derived};
use crate::pake::{finish, start_symmetric, Exchange};
use crate::secret::{zeroize_vec, Secret, SecretVec};

verus! {

pub const INFO_CONFIRM_A: &'static str = "narco/v1/confirm-A";

pub const INFO_CONFIRM_B: &'static str = "narco/v1/confirm-B";

pub const INFO_KEY_A: &'static str = "narco/v1/key-A";

pub const INFO_KEY_B: &'static str = "narco/v1/key-B";

pub const INFO_RATCHET: &'static str = "narco/v1/ratchet";

pub const AAD_PREFIX: &'static str = "narco/v1/msg";

/// How far a session has come.
#[derive(Clone, Copy, PartialEq, Eq, Debug, Structural)]
pub enum Phase {
    /// Waiting for the peer's SPAKE2 message.
    AwaitPake,
    /// Keys derived; waiting for the peer's confirmation tag.
    AwaitConfirm,
    /// Confirmed. Messaging is unlocked.
    Ready,
    /// Ended or aborted. Holds no key material.
    Dead,
}

/// What the caller should do as a result of feeding in a peer frame.
#[derive(Debug)]
pub enum Event {
    /// Transmit these bytes to the peer.
    Send(Vec<u8>),
    /// Handshake succeeded in both directions.
    Ready,
    /// A decrypted, authenticated message from the peer.
    Message(Vec<u8>),
}

/// One direction of the transport: a single-use key plus its counter.
pub struct Dir {
    pub key: Secret<32>,
    pub ctr: u64,
}

/// The longest frame that can be read: kind and counter, then the longest
/// ciphertext with its tag. A transport's own limit is far below.
pub const MAX_READABLE: u64 = 274_877_906_841;

/// The byte that a handshake message of the symmetric variant begins with.
pub const SIDE_MARKER: u8 = 0x53;

/// One side of an encrypted conversation with exactly one other person.
pub struct Session {
    phase: Phase,
    room_id: String,
    spake: Option<Exchange>,
    my_pake: Vec<u8>,
    my_confirm: Secret<32>,
    peer_confirm_expected: Secret<32>,
    tx: Option<Dir>,
    rx: Option<Dir>,
}

/// What one direction of the transport holds.
pub struct DirView {
    pub key: Seq<u8>,
    pub ctr: u64,
}

/// What a session holds.
pub struct SessionView {
    pub phase: Phase,
    pub room_id: Seq<char>,
    pub spake: Option<crate::pake::ExchangeView>,
    pub my_pake: Seq<u8>,
    pub my_confirm: Seq<u8>,
    pub peer_confirm_expected: Seq<u8>,
    pub tx: Option<DirView>,
    pub rx: Option<DirView>,
}

/// What an event carries.
pub enum EventView {
    Send(Seq<u8>),
    Ready,
    Message(Seq<u8>),
}

impl View for Event {
    type V = EventView;

    open spec fn view(&self) -> EventView {
        match *self {
            Event::Send(f) => EventView::Send(f@),
            Event::Ready => EventView::Ready,
            Event::Message(m) => EventView::Message(m@),
        }
    }
}

impl View for Dir {
    type V = DirView;

    open spec fn view(&self) -> DirView {
        DirView { key: self.key@, ctr: self.ctr }
    }
}

/// What a direction holds, if there is one.
pub open spec fn dir_view(dir: Option<Dir>) -> Option<DirView> {
    match dir {
        Some(d) => Some(d@),
        None => None,
    }
}

impl View for Session {
    type V = SessionView;

    closed spec fn view(&self) -> SessionView {
        SessionView {
            phase: self.phase,
            room_id: self.room_id@,
            spake: match self.spake {
                Some(e) => Some(crate::pake::exchange_state(e)),
                None => None,
            },
            my_pake: self.my_pake@,
            my_confirm: self.my_confirm@,
            peer_confirm_expected: self.peer_confirm_expected@,
            tx: dir_view(self.tx),
            rx: dir_view(self.rx),
        }
    }
}

/// The successor of a transport key.
pub open spec fn next_key(key: Seq<u8>) -> Seq<u8> {
    crate::crypto::hkdf_sha256(None, key, crate::crypto::label(INFO_RATCHET), 32)
}

impl DirView {
    /// The direction after one message.
    pub open spec fn ratcheted(self) -> DirView {
        DirView { key: next_key(self.key), ctr: (self.ctr + 1) as u64 }
    }

    /// Whether the counter can still advance.
    pub open spec fn has_room(self) -> bool {
        self.ctr < u64::MAX
    }
}

/// The nonce of message `ctr`.
pub open spec fn nonce_of(ctr: u64) -> Seq<u8> {
    crate::frame::zeros(4) + crate::bytes::be(ctr as nat, 8)
}

/// The associated data of message `ctr`.
pub open spec fn aad_of(ctr: u64) -> Seq<u8> {
    crate::crypto::label(AAD_PREFIX) + crate::bytes::be(ctr as nat, 8)
}

/// Whether `a` comes before `b` in byte order.
pub open spec fn sorts_before(a: Seq<u8>, b: Seq<u8>) -> bool
    decreases a.len(),
{
    if b.len() == 0 {
        false
    } else if a.len() == 0 {
        true
    } else if a[0] != b[0] {
        a[0] < b[0]
    } else {
        sorts_before(a.skip(1), b.skip(1))
    }
}

/// The two handshake messages, lower first, so that both peers compute the
/// same transcript.
pub open spec fn transcript(mine: Seq<u8>, peer: Seq<u8>) -> Seq<u8> {
    if sorts_before(mine, peer) {
        mine + peer
    } else {
        peer + mine
    }
}

/// One of the values drawn from the agreed key, bound to the transcript.
pub open spec fn scheduled(key: Seq<u8>, transcript: Seq<u8>, info: &str) -> Seq<u8> {
    crate::crypto::hkdf_sha256(Some(transcript), key, crate::crypto::label(info), 32)
}

/// What two peers draw from the key they agreed on, as one of them sees it.
pub struct KeysView {
    pub my_confirm: Seq<u8>,
    pub peer_confirm: Seq<u8>,
    pub tx: Seq<u8>,
    pub rx: Seq<u8>,
}

/// What a peer draws from the agreed key: the side whose handshake message
/// comes first takes the values of side A, the other those of side B.
pub open spec fn agreed(key: Seq<u8>, mine: Seq<u8>, peer: Seq<u8>) -> KeysView {
    let t = transcript(mine, peer);
    if sorts_before(mine, peer) {
        KeysView {
            my_confirm: scheduled(key, t, INFO_CONFIRM_A),
            peer_confirm: scheduled(key, t, INFO_CONFIRM_B),
            tx: scheduled(key, t, INFO_KEY_A),
            rx: scheduled(key, t, INFO_KEY_B),
        }
    } else {
        KeysView {
            my_confirm: scheduled(key, t, INFO_CONFIRM_B),
            peer_confirm: scheduled(key, t, INFO_CONFIRM_A),
            tx: scheduled(key, t, INFO_KEY_B),
            rx: scheduled(key, t, INFO_KEY_A),
        }
    }
}

impl SessionView {
    /// The session with all key material destroyed.
    pub open spec fn wiped(self) -> SessionView {
        SessionView {
            phase: Phase::Dead,
            room_id: self.room_id,
            spake: None,
            my_pake: Seq::empty(),
            my_confirm: crate::secret::erased(32),
            peer_confirm_expected: crate::secret::erased(32),
            tx: None,
            rx: None,
        }
    }

    /// Whether both counters can still advance, as they can for the first
    /// `u64::MAX` messages of each direction.
    pub open spec fn has_room(self) -> bool {
        &&& self.tx matches Some(d) ==> d.has_room()
        &&& self.rx matches Some(d) ==> d.has_room()
    }

    /// Whether a frame is no longer than what the cipher can open, which only a
    /// ready session asks of it: kind, counter, ciphertext and tag.
    pub open spec fn can_read(self, raw: Seq<u8>) -> bool {
        self.phase == Phase::Ready ==> raw.len() <= MAX_READABLE
    }

    /// What each phase holds: an unfinished exchange before the keys are
    /// derived, both directions after, and nothing at all at the end.
    pub open spec fn wf(self) -> bool {
        &&& self.phase == Phase::AwaitPake ==> {
            &&& self.spake matches Some(e) && self.my_pake == crate::pake::spake_message(
                e.password,
                e.scalar,
            ) && (forall|other: nat| #[trigger]
                crate::pake::sides_agree(e.password, e.identity, e.scalar, other))
            &&& self.my_pake.len() == frame::PAKE_LEN
            &&& self.my_pake[0] == SIDE_MARKER
            &&& self.tx is None
            &&& self.rx is None
        }
        &&& self.phase == Phase::AwaitConfirm || self.phase == Phase::Ready ==> {
            &&& self.spake is None
            &&& self.tx is Some
            &&& self.rx is Some
        }
        &&& self.phase == Phase::Dead ==> self == self.wiped()
        &&& self.my_confirm.len() == 32
        &&& self.peer_confirm_expected.len() == 32
    }

    /// A session that has just begun, from what the secrets derive.
    pub open spec fn is_fresh(self, derived: crate::kdf::DerivedView) -> bool {
        &&& self.wf()
        &&& self.phase == Phase::AwaitPake
        &&& self.room_id == derived.room_id
        &&& self.spake->0.password == derived.pake_pw
        &&& self.spake->0.identity == crate::text::utf8(derived.room_id)
        &&& self.my_confirm == crate::secret::erased(32)
        &&& self.peer_confirm_expected == crate::secret::erased(32)
    }

    /// What a peer's handshake message does to a session that waits for it.
    pub open spec fn after_pake(self, peer: Seq<u8>) -> Result<(SessionView, EventView), Error> {
        if peer == self.my_pake {
            Err(Error::Reflection)
        } else if self.spake is None {
            Err(Error::WrongPhase)
        } else {
            let e = self.spake->0;
            match crate::pake::spake_key(e.password, e.identity, e.scalar, peer) {
                None => Err(Error::BadHandshake),
                Some(key) => {
                    let keys = agreed(key, self.my_pake, peer);
                    let after = SessionView {
                        phase: Phase::AwaitConfirm,
                        spake: None,
                        my_confirm: keys.my_confirm,
                        peer_confirm_expected: keys.peer_confirm,
                        tx: Some(DirView { key: keys.tx, ctr: 0 }),
                        rx: Some(DirView { key: keys.rx, ctr: 0 }),
                        ..self
                    };
                    Ok((after, EventView::Send(crate::frame::confirm_bytes(keys.my_confirm))))
                },
            }
        }
    }

    /// What a confirmation tag does to a session that waits for it.
    pub open spec fn after_confirm(self, tag: Seq<u8>) -> Result<(SessionView, EventView), Error> {
        if tag != self.peer_confirm_expected {
            Err(Error::ConfirmMismatch)
        } else {
            let after = SessionView {
                phase: Phase::Ready,
                my_confirm: crate::secret::erased(32),
                peer_confirm_expected: crate::secret::erased(32),
                ..self
            };
            Ok((after, EventView::Ready))
        }
    }

    /// What an encrypted message does to a confirmed session.
    pub open spec fn after_message(self, ctr: u64, ct: Seq<u8>) -> Result<
        (SessionView, EventView),
        Error,
    > {
        match self.rx {
            None => Err(Error::WrongPhase),
            Some(rx) => if ctr != rx.ctr {
                Err(Error::OutOfOrder { expected: rx.ctr, got: ctr })
            } else {
                match opened_message(
                    crate::crypto::chacha_opened(rx.key, nonce_of(ctr), aad_of(ctr), ct),
                ) {
                    Err(e) => Err(e),
                    Ok(plaintext) => Ok(
                        (
                            SessionView { rx: Some(rx.ratcheted()), ..self },
                            EventView::Message(plaintext),
                        ),
                    ),
                }
            },
        }
    }

    /// What one frame from the peer does to a session: the session it becomes
    /// and what comes of it, or why the frame is refused.
    pub open spec fn accepted(self, raw: Seq<u8>) -> Result<(SessionView, EventView), Error> {
        if self.phase == Phase::Dead {
            Err(Error::Dead)
        } else {
            match crate::frame::parsed(raw) {
                Err(e) => Err(e),
                Ok(f) => match (self.phase, f) {
                    (
                        Phase::AwaitPake,
                        crate::frame::FrameView::Pake(peer),
                    ) => self.after_pake(peer),
                    (
                        Phase::AwaitConfirm,
                        crate::frame::FrameView::Confirm(tag),
                    ) => self.after_confirm(tag),
                    (Phase::Ready, crate::frame::FrameView::Msg { ctr, ct }) => self.after_message(
                        ctr,
                        ct,
                    ),
                    _ => Err(Error::WrongPhase),
                },
            }
        }
    }

    /// The session after one frame from the peer. A refused frame ends it.
    pub open spec fn after_frame(self, raw: Seq<u8>) -> SessionView {
        match self.accepted(raw) {
            Ok((after, _)) => after,
            Err(_) => self.wiped(),
        }
    }

    /// What encrypting a message gives: the session it leaves and the frame to
    /// transmit, or why there is none.
    pub open spec fn encrypted(self, plaintext: Seq<u8>) -> Result<(SessionView, Seq<u8>), Error> {
        if self.phase != Phase::Ready {
            Err(Error::WrongPhase)
        } else if plaintext.len() > frame::MAX_PLAINTEXT {
            Err(Error::TooLong)
        } else {
            match self.tx {
                None => Err(Error::WrongPhase),
                Some(tx) => match crate::crypto::chacha_sealed(
                    tx.key,
                    nonce_of(tx.ctr),
                    aad_of(tx.ctr),
                    crate::frame::padded(plaintext),
                ) {
                    None => Err(Error::Decrypt),
                    Some(ct) => Ok(
                        (
                            SessionView { tx: Some(tx.ratcheted()), ..self },
                            crate::frame::msg_bytes(tx.ctr, ct),
                        ),
                    ),
                },
            }
        }
    }

    /// The session after encrypting. A plaintext that is too long for a ready
    /// session leaves it as it was; any other failure ends it.
    pub open spec fn after_encrypt(self, plaintext: Seq<u8>) -> SessionView {
        match self.encrypted(plaintext) {
            Ok((after, _)) => after,
            Err(_) => if self.phase == Phase::Ready && plaintext.len() > frame::MAX_PLAINTEXT {
                self
            } else {
                self.wiped()
            },
        }
    }
}

/// The length of the frame of a plaintext of `len` bytes: kind and counter, the
/// bucket that the plaintext falls into, and the tag. It shows the bucket and
/// nothing else.
pub open spec fn sealed_len(len: nat) -> nat {
    (9 + crate::frame::bucket(len) + crate::crypto::TAG_LEN) as nat
}

/// `frame` carries `plaintext` as the next message of a direction: it bears
/// the direction's counter, and its ciphertext opens under the direction's key
/// to the padded plaintext.
pub open spec fn carries(dir: DirView, raw: Seq<u8>, plaintext: Seq<u8>) -> bool {
    &&& plaintext.len() <= frame::MAX_PLAINTEXT
    &&& crate::frame::parsed(raw) matches Ok(crate::frame::FrameView::Msg { ctr, ct }) && ctr
        == dir.ctr && crate::crypto::chacha_opened(dir.key, nonce_of(ctr), aad_of(ctr), ct) == Some(
        crate::frame::padded(plaintext),
    )
}

impl Dir {
    /// Replace the key with its HKDF successor, overwriting the old bytes.
    /// One-way, so past messages stay unreadable after compromise.
    fn ratchet(&mut self)
        requires
            old(self)@.has_room(),
        ensures
            final(self)@ == old(self)@.ratcheted(),
    {
        if let Some(next) = hkdf_expand::<32>(
            None,
            self.key.as_ref().as_slice(),
            INFO_RATCHET.as_bytes(),
        ) {
            self.key.zeroize();
            self.key = Secret::new(next);
        }
        self.ctr = self.ctr + 1;
    }
}

/// The label of the associated data is twelve ASCII bytes.
proof fn lemma_aad_prefix()
    ensures
        crate::crypto::label(AAD_PREFIX).len() == 12,
{
    reveal_strlit("narco/v1/msg");
    vstd::utf8::is_ascii_chars_encode_utf8(AAD_PREFIX@);
}

/// The nonce of message `ctr`: four zero bytes and the counter.
pub fn nonce_for(ctr: u64) -> (nonce: [u8; 12])
    ensures
        nonce@ == nonce_of(ctr),
{
    let mut tail: Vec<u8> = Vec::new();
    push_be(&mut tail, ctr, 8);
    proof {
        crate::bytes::lemma_be_len(ctr as nat, 8);
    }
    let mut nonce: [u8; 12] = [0u8; 12];
    let mut i: usize = 0;
    while i < 8
        invariant
            i <= 8,
            tail@ == crate::bytes::be(ctr as nat, 8),
            tail@.len() == 8,
            forall|j: int| 0 <= j < 4 ==> nonce@[j] == 0,
            forall|j: int| 4 <= j < 4 + i ==> nonce@[j] == tail@[j - 4],
        decreases 8 - i,
    {
        nonce[4 + i] = tail[i];
        i = i + 1;
    }
    assert(nonce@ =~= nonce_of(ctr));
    nonce
}

/// The associated data of message `ctr`: a label and the counter.
pub fn aad_for(ctr: u64) -> (aad: [u8; 20])
    ensures
        aad@ == aad_of(ctr),
{
    let mut bytes: Vec<u8> = vstd::slice::slice_to_vec(AAD_PREFIX.as_bytes());
    push_be(&mut bytes, ctr, 8);
    proof {
        crate::bytes::lemma_be_len(ctr as nat, 8);
        lemma_aad_prefix();
    }
    let mut aad: [u8; 20] = [0u8; 20];
    let mut i: usize = 0;
    while i < 20
        invariant
            i <= 20,
            bytes@ == aad_of(ctr),
            bytes@.len() == 20,
            forall|j: int| 0 <= j < i ==> aad@[j] == bytes@[j],
        decreases 20 - i,
    {
        aad[i] = bytes[i];
        i = i + 1;
    }
    assert(aad@ =~= aad_of(ctr));
    aad
}

/// Whether two byte strings are equal.
fn same_bytes(a: &[u8], b: &[u8]) -> (same: bool)
    ensures
        same == (a@ == b@),
{
    if a.len() != b.len() {
        return false;
    }
    let mut i: usize = 0;
    while i < a.len()
        invariant
            i <= a@.len(),
            a@.len() == b@.len(),
            forall|j: int| 0 <= j < i ==> a@[j] == b@[j],
        decreases a@.len() - i,
    {
        if a[i] != b[i] {
            return false;
        }
        i = i + 1;
    }
    assert(a@ =~= b@);
    true
}

/// Whether `a` comes before `b` in byte order.
fn is_lower(a: &[u8], b: &[u8]) -> (lower: bool)
    ensures
        lower == sorts_before(a@, b@),
{
    let mut i: usize = 0;
    assert(a@.skip(0) =~= a@);
    assert(b@.skip(0) =~= b@);
    while i < a.len() && i < b.len() && a[i] == b[i]
        invariant
            i <= a@.len(),
            i <= b@.len(),
            sorts_before(a@, b@) == sorts_before(a@.skip(i as int), b@.skip(i as int)),
        decreases a@.len() - i,
    {
        i = i + 1;
        assert(a@.skip(i - 1).skip(1) =~= a@.skip(i as int));
        assert(b@.skip(i - 1).skip(1) =~= b@.skip(i as int));
    }
    if i >= b.len() {
        false
    } else if i >= a.len() {
        true
    } else {
        a[i] < b[i]
    }
}

/// Which side of the transcript this peer is, by byte order of the two
/// handshake messages, so both peers agree without an extra round trip, and the
/// transcript itself. The side whose message comes first is told `true`.
pub fn order_messages(mine: &[u8], peer: &[u8]) -> (r: (bool, Vec<u8>))
    ensures
        r.0 == sorts_before(mine@, peer@),
        r.1@ == transcript(mine@, peer@),
{
    let first: bool = is_lower(mine, peer);
    let mut both: Vec<u8> = Vec::new();
    if first {
        both.extend_from_slice(mine);
        both.extend_from_slice(peer);
    } else {
        both.extend_from_slice(peer);
        both.extend_from_slice(mine);
    }
    assert(both@ =~= transcript(mine@, peer@));
    (first, both)
}

/// The message in what the cipher made of a ciphertext, if it is authentic and
/// correctly padded.
pub open spec fn opened_message(opened: Option<Seq<u8>>) -> Result<Seq<u8>, Error> {
    match opened {
        None => Err(Error::Decrypt),
        Some(padded) => match crate::frame::unpadded(padded) {
            None => Err(Error::Padding),
            Some(plaintext) => Ok(plaintext),
        },
    }
}

/// Read the message in what the cipher made of a ciphertext. The padded bytes
/// are erased.
pub fn read_opened(opened: Option<Vec<u8>>) -> (r: Result<Vec<u8>, Error>)
    ensures
        match (
            r,
            opened_message(
                match opened {
                    Some(padded) => Some(padded@),
                    None => None,
                },
            ),
        ) {
            (Ok(plaintext), Ok(view)) => plaintext@ == view,
            (Err(e), Err(why)) => e == why,
            _ => false,
        },
{
    match opened {
        None => Err(Error::Decrypt),
        Some(padded) => {
            let padded: SecretVec = SecretVec::new(padded);
            frame::unpad(padded.as_slice())
        },
    }
}

/// One value of the key schedule.
fn schedule(key: &[u8], transcript: &[u8], info: &str) -> (r: Secret<32>)
    ensures
        r@ == scheduled(key@, transcript@, info),
        r@.len() == 32,
{
    match hkdf_expand::<32>(Some(transcript), key, info.as_bytes()) {
        Some(out) => Secret::new(out),
        None => Secret::new([0u8; 32]),
    }
}

/// What two peers draw from the key they agreed on, as one of them sees it.
pub struct Keys {
    /// The tag this peer sends.
    pub my_confirm: Secret<32>,
    /// The tag the other peer must send.
    pub peer_confirm: Secret<32>,
    /// The key of the sending direction.
    pub tx: Secret<32>,
    /// The key of the receiving direction.
    pub rx: Secret<32>,
}

impl View for Keys {
    type V = KeysView;

    open spec fn view(&self) -> KeysView {
        KeysView {
            my_confirm: self.my_confirm@,
            peer_confirm: self.peer_confirm@,
            tx: self.tx@,
            rx: self.rx@,
        }
    }
}

/// Draw confirmation tags and transport keys from the key that the exchange
/// agreed on, bound to the two handshake messages.
pub fn agree(key: &[u8], mine: &[u8], peer: &[u8]) -> (keys: Keys)
    ensures
        keys@ == agreed(key@, mine@, peer@),
        keys@.my_confirm.len() == 32,
        keys@.peer_confirm.len() == 32,
{
    let (first, transcript) = order_messages(mine, peer);
    let confirm_a: Secret<32> = schedule(key, transcript.as_slice(), INFO_CONFIRM_A);
    let confirm_b: Secret<32> = schedule(key, transcript.as_slice(), INFO_CONFIRM_B);
    let key_a: Secret<32> = schedule(key, transcript.as_slice(), INFO_KEY_A);
    let key_b: Secret<32> = schedule(key, transcript.as_slice(), INFO_KEY_B);
    if first {
        Keys { my_confirm: confirm_a, peer_confirm: confirm_b, tx: key_a, rx: key_b }
    } else {
        Keys { my_confirm: confirm_b, peer_confirm: confirm_a, tx: key_b, rx: key_a }
    }
}

impl Session {
    /// Stretch the code and begin a handshake.
    ///
    /// This runs Argon2id and takes on the order of 100 ms on desktop and
    /// several hundred on mobile. Call it off the UI thread.
    ///
    /// To open several candidate connections from one code — as the Tor
    /// transport does — derive once with [`kdf::derive`] and call
    /// [`Session::from_derived`] per candidate instead of paying for Argon2id
    /// each time.
    pub fn new(code: &str) -> (r: Result<Self, Error>)
        ensures
            match (r, crate::kdf::derivation(seq![code@])) {
                (Ok(s), Ok(derived)) => s@.is_fresh(derived),
                (Err(e), Err(why)) => e == why,
                _ => false,
            },
            r matches Err(e) && e == Error::Kdf ==> crate::kdf::secret_bytes(
                crate::kdf::kept(seq![code@]),
            ).len() > u32::MAX,
    {
        match kdf::derive(code) {
            Ok(derived) => Ok(Self::from_derived(&derived)),
            Err(e) => Err(e),
        }
    }

    /// Begin a handshake from already-stretched key material.
    ///
    /// Each call produces an independent session with a fresh SPAKE2 ephemeral,
    /// so several may run concurrently without interfering.
    pub fn from_derived(derived: &Derived) -> (s: Self)
        ensures
            s@.is_fresh(derived@),
    {
        let (spake, my_pake) = start_symmetric(
            derived.pake_pw.as_ref(),
            derived.room_id.as_str().as_bytes(),
        );
        let my_confirm: Secret<32> = Secret::new([0u8; 32]);
        let peer_confirm_expected: Secret<32> = Secret::new([0u8; 32]);
        assert(my_confirm@ =~= crate::secret::erased(32));
        assert(peer_confirm_expected@ =~= crate::secret::erased(32));
        Session {
            phase: Phase::AwaitPake,
            room_id: derived.room_id.clone(),
            spake: Some(spake),
            my_pake,
            my_confirm,
            peer_confirm_expected,
            tx: None,
            rx: None,
        }
    }

    /// The room this session belongs to. Safe to hand to a relay.
    pub fn room_id(&self) -> (id: &str)
        ensures
            id@ == self@.room_id,
    {
        self.room_id.as_str()
    }

    /// How far the session has come.
    pub fn phase(&self) -> (phase: Phase)
        ensures
            phase == self@.phase,
    {
        self.phase
    }

    /// Whether messages may be sent.
    pub fn is_ready(&self) -> (ready: bool)
        ensures
            ready == (self@.phase == Phase::Ready),
    {
        self.phase == Phase::Ready
    }

    /// Whether both counters can still advance.
    pub fn has_room(&self) -> (room: bool)
        ensures
            room == self@.has_room(),
    {
        let tx: bool = match &self.tx {
            Some(dir) => dir.ctr < u64::MAX,
            None => true,
        };
        let rx: bool = match &self.rx {
            Some(dir) => dir.ctr < u64::MAX,
            None => true,
        };
        tx && rx
    }

    /// The sending direction, once keys are derived.
    pub fn tx(&self) -> (dir: &Option<Dir>)
        ensures
            dir_view(*dir) == self@.tx,
    {
        &self.tx
    }

    /// The receiving direction, once keys are derived.
    pub fn rx(&self) -> (dir: &Option<Dir>)
        ensures
            dir_view(*dir) == self@.rx,
    {
        &self.rx
    }

    /// The handshake frame to send once the peer is present.
    pub fn pake_frame(&self) -> (f: Vec<u8>)
        ensures
            f@ == crate::frame::pake_bytes(self@.my_pake),
    {
        frame::pake_frame(self.my_pake.as_slice())
    }

    /// Feed in one frame received from the peer.
    ///
    /// On any error the session is wiped and permanently dead.
    pub fn handle(&mut self, raw: &[u8]) -> (r: Result<Event, Error>)
        requires
            old(self)@.has_room(),
            old(self)@.can_read(raw@),
        ensures
            final(self)@ == old(self)@.after_frame(raw@),
            match (r, old(self)@.accepted(raw@)) {
                (Ok(event), Ok((_, view))) => event@ == view,
                (Err(e), Err(why)) => e == why,
                _ => false,
            },
            old(self)@.phase == Phase::AwaitPake && r is Ok ==> raw@.len() == 1 + frame::PAKE_LEN
                && raw@[1] == SIDE_MARKER,
            r matches Ok(Event::Message(_)) ==> final(self)@.rx->0.key
                == crate::crypto::hkdf_sha256(
                None,
                old(self)@.rx->0.key,
                vstd::utf8::encode_utf8("narco/v1/ratchet"@),
                32,
            ),
            old(self)@.wf() ==> final(self)@.wf(),
    {
        let out: Result<Event, Error> = self.handle_inner(raw);
        if out.is_err() {
            self.wipe();
        }
        out
    }

    fn handle_inner(&mut self, raw: &[u8]) -> (r: Result<Event, Error>)
        requires
            old(self)@.has_room(),
            old(self)@.can_read(raw@),
        ensures
            match (r, old(self)@.accepted(raw@)) {
                (Ok(event), Ok((after, view))) => event@ == view && final(self)@ == after,
                (Err(e), Err(why)) => e == why && final(self)@.room_id == old(self)@.room_id,
                _ => false,
            },
            old(self)@.phase == Phase::AwaitPake && r is Ok ==> raw@.len() == 1 + frame::PAKE_LEN
                && raw@[1] == SIDE_MARKER,
            old(self)@.wf() && r is Ok ==> final(self)@.wf(),
    {
        if self.phase == Phase::Dead {
            return Err(Error::Dead);
        }
        match frame::parse(raw) {
            Err(e) => Err(e),
            Ok(f) => match (self.phase, f) {
                (Phase::AwaitPake, Frame::Pake(peer_msg)) => self.on_pake(peer_msg),
                (Phase::AwaitConfirm, Frame::Confirm(tag)) => self.on_confirm(tag),
                (Phase::Ready, Frame::Msg { ctr, ct }) => self.on_message(ctr, ct),
                _ => Err(Error::WrongPhase),
            },
        }
    }

    fn on_pake(&mut self, peer_msg: &[u8]) -> (r: Result<Event, Error>)
        ensures
            match (r, old(self)@.after_pake(peer_msg@)) {
                (Ok(event), Ok((after, view))) => event@ == view && final(self)@ == after,
                (Err(e), Err(why)) => e == why && final(self)@.room_id == old(self)@.room_id,
                _ => false,
            },
            r is Ok ==> final(self)@.my_confirm.len() == 32
                && final(self)@.peer_confirm_expected.len() == 32,
            r is Ok ==> peer_msg@.len() == frame::PAKE_LEN && peer_msg@[0] == SIDE_MARKER,
    {
        // A relay that echoes our own handshake back would otherwise have us
        // agree a key with ourselves.
        if same_bytes(peer_msg, self.my_pake.as_slice()) {
            return Err(Error::Reflection);
        }
        let spake: Exchange = match self.spake.take() {
            Some(spake) => spake,
            None => {
                return Err(Error::WrongPhase);
            },
        };
        // SPAKE2 does not fail on a wrong password; it yields a different key,
        // and `on_confirm` is what rejects that. A failure here means the bytes
        // were not a usable SPAKE2 message.
        let k: SecretVec = match finish(spake, peer_msg) {
            Some(k) => SecretVec::new(k),
            None => {
                return Err(Error::BadHandshake);
            },
        };

        let keys: Keys = agree(k.as_slice(), self.my_pake.as_slice(), peer_msg);
        self.my_confirm = keys.my_confirm;
        self.peer_confirm_expected = keys.peer_confirm;
        self.tx = Some(Dir { key: keys.tx, ctr: 0 });
        self.rx = Some(Dir { key: keys.rx, ctr: 0 });
        self.phase = Phase::AwaitConfirm;
        Ok(Event::Send(frame::confirm_frame(self.my_confirm.as_ref())))
    }

    fn on_confirm(&mut self, tag: &[u8]) -> (r: Result<Event, Error>)
        ensures
            match (r, old(self)@.after_confirm(tag@)) {
                (Ok(event), Ok((after, view))) => event@ == view && final(self)@ == after,
                (Err(e), Err(why)) => e == why && final(self)@.room_id == old(self)@.room_id,
                _ => false,
            },
    {
        if !ct_equal(tag, self.peer_confirm_expected.as_ref().as_slice()) {
            return Err(Error::ConfirmMismatch);
        }
        // No longer needed once verified.
        self.my_confirm.zeroize();
        self.peer_confirm_expected.zeroize();
        self.phase = Phase::Ready;
        Ok(Event::Ready)
    }

    fn on_message(&mut self, ctr: u64, ct: &[u8]) -> (r: Result<Event, Error>)
        requires
            old(self)@.has_room(),
            ct@.len() <= crate::crypto::MAX_CIPHER_TEXT + crate::crypto::TAG_LEN,
        ensures
            match (r, old(self)@.after_message(ctr, ct@)) {
                (Ok(event), Ok((after, view))) => event@ == view && final(self)@ == after,
                (Err(e), Err(why)) => e == why && final(self)@.room_id == old(self)@.room_id,
                _ => false,
            },
    {
        match &mut self.rx {
            None => Err(Error::WrongPhase),
            Some(rx) => {
                // The transport is ordered, so any deviation is tampering, not loss.
                if ctr != rx.ctr {
                    return Err(Error::OutOfOrder { expected: rx.ctr, got: ctr });
                }
                let opened: Option<Vec<u8>> = chacha_open(
                    rx.key.as_ref(),
                    &nonce_for(ctr),
                    aad_for(ctr).as_slice(),
                    ct,
                );
                match read_opened(opened) {
                    Err(e) => Err(e),
                    Ok(plaintext) => {
                        rx.ratchet();
                        Ok(Event::Message(plaintext))
                    },
                }
            },
        }
    }

    /// Encrypt a message for the peer, returning the frame to transmit.
    ///
    /// An oversize plaintext is rejected without harming the session; any other
    /// failure is terminal.
    pub fn encrypt(&mut self, plaintext: &[u8]) -> (r: Result<Vec<u8>, Error>)
        requires
            old(self)@.has_room(),
        ensures
            final(self)@ == old(self)@.after_encrypt(plaintext@),
            match (r, old(self)@.encrypted(plaintext@)) {
                (Ok(f), Ok((_, view))) => f@ == view && carries(
                    old(self)@.tx->0,
                    f@,
                    plaintext@,
                ),
                (Err(e), Err(why)) => e == why,
                _ => false,
            },
            r matches Ok(f) ==> f@.len() == sealed_len(plaintext@.len()),
            r is Ok ==> final(self)@.tx->0.key == crate::crypto::hkdf_sha256(
                None,
                old(self)@.tx->0.key,
                vstd::utf8::encode_utf8("narco/v1/ratchet"@),
                32,
            ),
            old(self)@.wf() && old(self)@.phase == Phase::Ready && plaintext@.len()
                <= frame::MAX_PLAINTEXT ==> r is Ok,
            old(self)@.wf() ==> final(self)@.wf(),
    {
        if self.phase != Phase::Ready {
            self.wipe();
            return Err(Error::WrongPhase);
        }
        // Checked before touching key state so a too-long message is a
        // recoverable user error rather than a dead session.
        if plaintext.len() > frame::MAX_PLAINTEXT {
            return Err(Error::TooLong);
        }
        let result: Result<Vec<u8>, Error> = self.seal_next(plaintext);
        if result.is_err() {
            self.wipe();
        }
        result
    }

    fn seal_next(&mut self, plaintext: &[u8]) -> (r: Result<Vec<u8>, Error>)
        requires
            old(self)@.has_room(),
            old(self)@.phase == Phase::Ready,
            plaintext@.len() <= frame::MAX_PLAINTEXT,
        ensures
            match (r, old(self)@.encrypted(plaintext@)) {
                (Ok(f), Ok((after, view))) => f@ == view && final(self)@ == after && carries(
                    old(self)@.tx->0,
                    f@,
                    plaintext@,
                ),
                (Err(e), Err(why)) => e == why && final(self)@.room_id == old(self)@.room_id,
                _ => false,
            },
            r matches Ok(f) ==> f@.len() == sealed_len(plaintext@.len()),
            old(self)@.tx is Some ==> r is Ok,
    {
        match &mut self.tx {
            None => Err(Error::WrongPhase),
            Some(tx) => {
                let ctr: u64 = tx.ctr;
                let padded: SecretVec = match frame::pad(plaintext) {
                    Ok(padded) => SecretVec::new(padded),
                    Err(e) => {
                        return Err(e);
                    },
                };
                proof {
                    crate::frame::law_padding_round_trips(plaintext@);
                }
                match chacha_seal(
                    tx.key.as_ref(),
                    &nonce_for(ctr),
                    aad_for(ctr).as_slice(),
                    padded.as_slice(),
                ) {
                    None => Err(Error::Decrypt),
                    Some(ct) => {
                        proof {
                            crate::frame::law_msg_frame_round_trips(ctr, ct@);
                            crate::bytes::lemma_be_len(ctr as nat, 8);
                        }
                        tx.ratchet();
                        Ok(frame::msg_frame(ctr, ct.as_slice()))
                    },
                }
            },
        }
    }

    /// Destroy all key material and mark the session dead. Idempotent.
    pub fn wipe(&mut self)
        ensures
            final(self)@ == old(self)@.wiped(),
            final(self)@.wf(),
        opens_invariants none
        no_unwind
    {
        self.spake = None;
        self.my_confirm.zeroize();
        self.peer_confirm_expected.zeroize();
        zeroize_vec(&mut self.my_pake);
        // Dir owns erasing keys, so dropping erases them.
        self.tx = None;
        self.rx = None;
        self.phase = Phase::Dead;
    }
}

impl Drop for Session {
    fn drop(&mut self)
        ensures
            final(self)@ == old(self)@.wiped(),
        opens_invariants none
        no_unwind
    {
        self.wipe();
    }
}

/// Of two different byte strings exactly one comes first.
proof fn lemma_order_is_total(a: Seq<u8>, b: Seq<u8>)
    requires
        a != b,
    ensures
        sorts_before(a, b) != sorts_before(b, a),
    decreases a.len(),
{
    if a.len() == 0 || b.len() == 0 {
        if a.len() == b.len() {
            assert(a =~= b);
        }
    } else if a[0] == b[0] {
        if a.skip(1) == b.skip(1) {
            assert(a =~= seq![a[0]] + a.skip(1));
            assert(b =~= seq![b[0]] + b.skip(1));
        }
        lemma_order_is_total(a.skip(1), b.skip(1));
    }
}

/// A frame that is refused ends the session: it is dead, and it holds no key
/// material.
pub proof fn law_every_error_is_terminal(s: SessionView, raw: Seq<u8>)
    requires
        s.accepted(raw) is Err,
    ensures
        s.after_frame(raw) == s.wiped(),
        s.after_frame(raw).phase == Phase::Dead,
        s.after_frame(raw).spake is None,
        s.after_frame(raw).tx is None,
        s.after_frame(raw).rx is None,
        s.after_frame(raw).my_confirm == crate::secret::erased(32),
        s.after_frame(raw).peer_confirm_expected == crate::secret::erased(32),
{
}

/// A dead session stays dead: it takes no frame and sends no message.
pub proof fn law_dead_is_final(s: SessionView, raw: Seq<u8>, plaintext: Seq<u8>)
    requires
        s.wf(),
        s.phase == Phase::Dead,
    ensures
        s.accepted(raw) == Err::<(SessionView, EventView), Error>(Error::Dead),
        s.after_frame(raw) == s,
        s.encrypted(plaintext) == Err::<(SessionView, Seq<u8>), Error>(Error::WrongPhase),
        s.after_encrypt(plaintext) == s,
{
}

/// Wiping twice is wiping once.
pub proof fn law_wipe_is_idempotent(s: SessionView)
    ensures
        s.wiped().wiped() == s.wiped(),
{
}

/// The order of the phases.
pub open spec fn rank(phase: Phase) -> nat {
    match phase {
        Phase::AwaitPake => 0,
        Phase::AwaitConfirm => 1,
        Phase::Ready => 2,
        Phase::Dead => 3,
    }
}

/// A session never goes back to an earlier phase, and never changes rooms.
pub proof fn law_phases_only_advance(s: SessionView, raw: Seq<u8>, plaintext: Seq<u8>)
    ensures
        rank(s.phase) <= rank(s.after_frame(raw).phase),
        rank(s.phase) <= rank(s.after_encrypt(plaintext).phase),
        s.after_frame(raw).room_id == s.room_id,
        s.after_encrypt(plaintext).room_id == s.room_id,
{
}

/// Our own handshake message, sent back to us, is refused.
pub proof fn law_reflection_is_refused(s: SessionView)
    requires
        s.wf(),
        s.phase == Phase::AwaitPake,
    ensures
        s.accepted(crate::frame::pake_bytes(s.my_pake)) == Err::<(SessionView, EventView), Error>(
            Error::Reflection,
        ),
{
    crate::frame::law_pake_frame_round_trips(s.my_pake);
}

/// No message is taken before the handshake is confirmed: the session is not
/// ready until the peer has sent the tag that was expected of it.
pub proof fn law_ready_means_confirmed(s: SessionView, raw: Seq<u8>)
    requires
        s.phase != Phase::Ready,
        s.after_frame(raw).phase == Phase::Ready,
    ensures
        s.phase == Phase::AwaitConfirm,
        raw == crate::frame::confirm_bytes(s.peer_confirm_expected),
{
    crate::frame::law_parsing_is_faithful(raw);
}

/// Two sessions that share their secrets, and exchange handshake messages,
/// take opposite roles: each sends with the key the other receives with, and
/// each expects the confirmation tag that the other sends. Feeding each the
/// other's confirmation makes both ready.
///
/// Two sessions whose handshake messages coincide are told apart from a
/// reflection by nothing, and are left out.
pub proof fn law_matching_secrets_reach_ready(a: SessionView, b: SessionView)
    requires
        a.wf(),
        b.wf(),
        a.phase == Phase::AwaitPake,
        b.phase == Phase::AwaitPake,
        a.spake->0.password == b.spake->0.password,
        a.spake->0.identity == b.spake->0.identity,
        a.my_pake != b.my_pake,
        a.after_frame(crate::frame::pake_bytes(b.my_pake)).wf(),
        b.after_frame(crate::frame::pake_bytes(a.my_pake)).wf(),
    ensures
        ({
            let from_a = crate::frame::pake_bytes(a.my_pake);
            let from_b = crate::frame::pake_bytes(b.my_pake);
            let a1 = a.after_frame(from_b);
            let b1 = b.after_frame(from_a);
            let tag_a = crate::frame::confirm_bytes(a1.my_confirm);
            let tag_b = crate::frame::confirm_bytes(b1.my_confirm);
            &&& a.accepted(from_b) == Ok::<(SessionView, EventView), Error>(
                (a1, EventView::Send(tag_a)),
            )
            &&& b.accepted(from_a) == Ok::<(SessionView, EventView), Error>(
                (b1, EventView::Send(tag_b)),
            )
            &&& tag_a.len() == 1 + frame::CONFIRM_LEN && tag_a[0] == frame::KIND_CONFIRM
            &&& tag_b.len() == 1 + frame::CONFIRM_LEN && tag_b[0] == frame::KIND_CONFIRM
            &&& a1.tx == b1.rx
            &&& a1.rx == b1.tx
            &&& a1.accepted(tag_b) matches Ok((a2, event)) && event == EventView::Ready && a2.phase
                == Phase::Ready && a2.tx == a1.tx && a2.rx == a1.rx
            &&& b1.accepted(tag_a) matches Ok((b2, event)) && event == EventView::Ready && b2.phase
                == Phase::Ready && b2.tx == b1.tx && b2.rx == b1.rx
        }),
{
    let ea = a.spake->0;
    let eb = b.spake->0;
    assert(crate::pake::sides_agree(ea.password, ea.identity, ea.scalar, eb.scalar));
    crate::frame::law_pake_frame_round_trips(a.my_pake);
    crate::frame::law_pake_frame_round_trips(b.my_pake);
    lemma_order_is_total(a.my_pake, b.my_pake);
    let a1 = a.after_frame(crate::frame::pake_bytes(b.my_pake));
    let b1 = b.after_frame(crate::frame::pake_bytes(a.my_pake));
    crate::frame::law_confirm_frame_round_trips(a1.my_confirm);
    crate::frame::law_confirm_frame_round_trips(b1.my_confirm);
}

/// A session refuses its own confirmation tag, and does not send the tag it
/// waits for. The two tags are drawn from the agreed key under different labels;
/// that they come out different is the work of HKDF.
pub proof fn law_own_confirmation_is_refused(s: SessionView)
    requires
        s.phase == Phase::AwaitConfirm,
        s.my_confirm.len() == frame::CONFIRM_LEN,
        s.my_confirm != s.peer_confirm_expected,
    ensures
        s.accepted(crate::frame::confirm_bytes(s.my_confirm)) == Err::<
            (SessionView, EventView),
            Error,
        >(Error::ConfirmMismatch),
        crate::frame::confirm_bytes(s.my_confirm) != crate::frame::confirm_bytes(
            s.peer_confirm_expected,
        ),
{
    let mine = crate::frame::confirm_bytes(s.my_confirm);
    let theirs = crate::frame::confirm_bytes(s.peer_confirm_expected);
    crate::frame::law_confirm_frame_round_trips(s.my_confirm);
    assert(mine.skip(1) =~= s.my_confirm);
    assert(theirs.skip(1) =~= s.peer_confirm_expected);
}

/// A confirmation tag other than the expected one ends the handshake.
pub proof fn law_wrong_confirmation_is_refused(s: SessionView, tag: Seq<u8>)
    requires
        s.phase == Phase::AwaitConfirm,
        tag.len() == frame::CONFIRM_LEN,
        tag != s.peer_confirm_expected,
    ensures
        s.accepted(crate::frame::confirm_bytes(tag)) == Err::<(SessionView, EventView), Error>(
            Error::ConfirmMismatch,
        ),
{
    crate::frame::law_confirm_frame_round_trips(tag);
}

/// What one side encrypts, the other reads: a frame that carries a message of
/// the direction a ready session receives on gives that message, whatever its
/// length, and leaves the two directions in step for the next one.
pub proof fn law_messages_round_trip(
    sender: SessionView,
    receiver: SessionView,
    raw: Seq<u8>,
    plaintext: Seq<u8>,
)
    requires
        receiver.phase == Phase::Ready,
        sender.tx is Some,
        sender.tx == receiver.rx,
        carries(sender.tx->0, raw, plaintext),
        sender.encrypted(plaintext) is Ok,
    ensures
        receiver.accepted(raw) == Ok::<(SessionView, EventView), Error>(
            (receiver.after_frame(raw), EventView::Message(plaintext)),
        ),
        receiver.after_frame(raw).phase == Phase::Ready,
        receiver.after_frame(raw).rx == sender.after_encrypt(plaintext).tx,
        receiver.after_frame(raw).tx == receiver.tx,
        sender.after_encrypt(plaintext).rx == sender.rx,
{
    crate::frame::law_padding_round_trips(plaintext);
}

/// A frame that was taken once is refused the second time, and named as the
/// replay it is.
pub proof fn law_replay_is_refused(s: SessionView, raw: Seq<u8>, ctr: u64, ct: Seq<u8>)
    requires
        s.phase == Phase::Ready,
        s.has_room(),
        crate::frame::parsed(raw) == Ok::<crate::frame::FrameView, Error>(
            crate::frame::FrameView::Msg { ctr, ct },
        ),
        s.accepted(raw) is Ok,
    ensures
        s.after_frame(raw).accepted(raw) == Err::<(SessionView, EventView), Error>(
            Error::OutOfOrder { expected: (ctr + 1) as u64, got: ctr },
        ),
{
}

/// A message out of its turn is refused, whatever it holds.
pub proof fn law_reordering_is_refused(s: SessionView, ctr: u64, ct: Seq<u8>)
    requires
        s.phase == Phase::Ready,
        s.wf(),
        ct.len() > 0,
        ctr != s.rx->0.ctr,
    ensures
        s.accepted(crate::frame::msg_bytes(ctr, ct)) == Err::<(SessionView, EventView), Error>(
            Error::OutOfOrder { expected: s.rx->0.ctr, got: ctr },
        ),
{
    crate::frame::law_msg_frame_round_trips(ctr, ct);
}

/// A message that is too long leaves the session as it was.
pub proof fn law_oversize_is_harmless(s: SessionView, plaintext: Seq<u8>)
    requires
        s.phase == Phase::Ready,
        plaintext.len() > frame::MAX_PLAINTEXT,
    ensures
        s.encrypted(plaintext) == Err::<(SessionView, Seq<u8>), Error>(Error::TooLong),
        s.after_encrypt(plaintext) == s,
{
}

/// A message that cannot be sent ends the session, unless it was only too long:
/// sending before the session is confirmed leaves nothing that could send.
pub proof fn law_failed_sends_are_terminal(s: SessionView, plaintext: Seq<u8>)
    requires
        s.encrypted(plaintext) is Err,
        s.encrypted(plaintext) != Err::<(SessionView, Seq<u8>), Error>(Error::TooLong),
    ensures
        s.after_encrypt(plaintext) == s.wiped(),
        s.after_encrypt(plaintext).phase == Phase::Dead,
{
}

/// No two messages of a direction share a nonce or associated data.
pub proof fn law_nonces_are_distinct(a: u64, b: u64)
    requires
        a != b,
    ensures
        nonce_of(a) != nonce_of(b),
        aad_of(a) != aad_of(b),
{
    crate::bytes::lemma_pow256_widths();
    crate::bytes::lemma_be_round_trip(a as nat, 8);
    crate::bytes::lemma_be_round_trip(b as nat, 8);
    crate::bytes::lemma_be_len(a as nat, 8);
    crate::bytes::lemma_be_len(b as nat, 8);
    lemma_aad_prefix();
    assert(nonce_of(a).skip(4) =~= crate::bytes::be(a as nat, 8));
    assert(nonce_of(b).skip(4) =~= crate::bytes::be(b as nat, 8));
    assert(aad_of(a).skip(12) =~= crate::bytes::be(a as nat, 8));
    assert(aad_of(b).skip(12) =~= crate::bytes::be(b as nat, 8));
}

/// The two directions of a session do not disturb each other: sending leaves
/// the receiving side alone, and receiving a message the sending side.
pub proof fn law_directions_are_independent(s: SessionView, raw: Seq<u8>, plaintext: Seq<u8>)
    requires
        s.phase == Phase::Ready,
        s.accepted(raw) is Ok,
        s.encrypted(plaintext) is Ok,
    ensures
        s.after_frame(raw).tx == s.tx,
        s.after_frame(raw).rx == Some(s.rx->0.ratcheted()),
        s.after_encrypt(plaintext).rx == s.rx,
        s.after_encrypt(plaintext).tx == Some(s.tx->0.ratcheted()),
{
}

/// Every message moves its direction's key on, whatever its counter: the key
/// that is held after a message is the HKDF-SHA256 of the one the message went
/// under, and the counter is one higher. The other direction is left alone.
pub proof fn law_every_message_moves_the_key_on(s: SessionView, raw: Seq<u8>, plaintext: Seq<u8>)
    ensures
        s.accepted(raw) matches Ok((after, EventView::Message(_))) ==> {
            &&& s.rx is Some && after.rx is Some
            &&& after.rx->0.key == crate::crypto::hkdf_sha256(
                None,
                s.rx->0.key,
                vstd::utf8::encode_utf8("narco/v1/ratchet"@),
                32,
            )
            &&& s.rx->0.ctr < u64::MAX ==> after.rx->0.ctr == s.rx->0.ctr + 1
            &&& after.tx == s.tx
            &&& after.phase == Phase::Ready
        },
        s.encrypted(plaintext) matches Ok((after, _)) ==> {
            &&& s.tx is Some && after.tx is Some
            &&& after.tx->0.key == crate::crypto::hkdf_sha256(
                None,
                s.tx->0.key,
                vstd::utf8::encode_utf8("narco/v1/ratchet"@),
                32,
            )
            &&& s.tx->0.ctr < u64::MAX ==> after.tx->0.ctr == s.tx->0.ctr + 1
            &&& after.rx == s.rx
            &&& after.phase == Phase::Ready
        },
{
}

/// The key of message `n` of a direction whose first key is `first`.
pub open spec fn nth_key(first: Seq<u8>, n: nat) -> Seq<u8>
    decreases n,
{
    if n == 0 {
        first
    } else {
        crate::crypto::hkdf_sha256(
            None,
            nth_key(first, (n - 1) as nat),
            vstd::utf8::encode_utf8("narco/v1/ratchet"@),
            32,
        )
    }
}

/// The session after encrypting some messages, one after another.
pub open spec fn after_sending(s: SessionView, messages: Seq<Seq<u8>>) -> SessionView
    decreases messages.len(),
{
    if messages.len() == 0 {
        s
    } else {
        after_sending(s, messages.drop_last()).after_encrypt(messages.last())
    }
}

/// After `n` messages a direction holds the `n`-fold successor of its first
/// key: no two messages of a direction go under one key unless HKDF runs into
/// itself.
pub proof fn law_the_key_of_every_message(s: SessionView, messages: Seq<Seq<u8>>)
    requires
        s.tx is Some,
        s.tx->0.ctr + messages.len() <= u64::MAX,
        forall|i: int|
            0 <= i < messages.len() ==> #[trigger] after_sending(s, messages.take(i)).encrypted(
                messages[i],
            ) is Ok,
    ensures
        after_sending(s, messages).tx is Some,
        after_sending(s, messages).tx->0.key == nth_key(s.tx->0.key, messages.len()),
        after_sending(s, messages).tx->0.ctr == s.tx->0.ctr + messages.len(),
    decreases messages.len(),
{
    if messages.len() > 0 {
        let n = messages.len() - 1;
        let before = messages.drop_last();
        assert(before =~= messages.take(n));
        assert forall|i: int| 0 <= i < before.len() implies #[trigger] after_sending(
            s,
            before.take(i),
        ).encrypted(before[i]) is Ok by {
            assert(before.take(i) =~= messages.take(i));
            assert(after_sending(s, messages.take(i)).encrypted(messages[i]) is Ok);
        }
        law_the_key_of_every_message(s, before);
        assert(after_sending(s, messages.take(n)).encrypted(messages[n]) is Ok);
        law_every_message_moves_the_key_on(
            after_sending(s, before),
            Seq::empty(),
            messages.last(),
        );
    }
}

/// The session after reading some frames, one after another.
pub open spec fn after_reading(s: SessionView, frames: Seq<Seq<u8>>) -> SessionView
    decreases frames.len(),
{
    if frames.len() == 0 {
        s
    } else {
        after_reading(s, frames.drop_last()).after_frame(frames.last())
    }
}

/// Messages are read in the order they were sent, all of them: frame after
/// frame, each under its own key and counter, gives message after message.
pub proof fn law_messages_are_read_in_order(
    s: SessionView,
    frames: Seq<Seq<u8>>,
    messages: Seq<Seq<u8>>,
)
    requires
        s.phase == Phase::Ready,
        s.rx is Some,
        frames.len() == messages.len(),
        s.rx->0.ctr + frames.len() <= u64::MAX,
        forall|i: int|
            0 <= i < frames.len() ==> carries(
                DirView { key: nth_key(s.rx->0.key, i as nat), ctr: (s.rx->0.ctr + i) as u64 },
                #[trigger] frames[i],
                messages[i],
            ),
    ensures
        forall|i: int|
            0 <= i < frames.len() ==> (#[trigger] after_reading(s, frames.take(i)).accepted(
                frames[i],
            ) matches Ok((_, EventView::Message(m))) && m == messages[i]),
        after_reading(s, frames).phase == Phase::Ready,
        after_reading(s, frames).rx == Some(
            DirView {
                key: nth_key(s.rx->0.key, frames.len()),
                ctr: (s.rx->0.ctr + frames.len()) as u64,
            },
        ),
        after_reading(s, frames).tx == s.tx,
    decreases frames.len(),
{
    if frames.len() > 0 {
        let n = frames.len() - 1;
        let before = frames.drop_last();
        let words = messages.drop_last();
        assert forall|i: int| 0 <= i < before.len() implies carries(
            DirView { key: nth_key(s.rx->0.key, i as nat), ctr: (s.rx->0.ctr + i) as u64 },
            #[trigger] before[i],
            words[i],
        ) by {
            assert(before[i] == frames[i]);
        }
        law_messages_are_read_in_order(s, before, words);
        let mid = after_reading(s, before);
        assert(carries(mid.rx->0, frames[n], messages[n]));
        crate::frame::law_padding_round_trips(messages[n]);
        law_every_message_moves_the_key_on(mid, frames[n], Seq::empty());
        assert(frames.take(n) =~= before);
        assert forall|i: int| 0 <= i < frames.len() implies (#[trigger] after_reading(
            s,
            frames.take(i),
        ).accepted(frames[i]) matches Ok((_, EventView::Message(m))) && m == messages[i]) by {
            if i < n {
                assert(before.take(i) =~= frames.take(i));
                assert(after_reading(s, before.take(i)).accepted(before[i]) matches Ok(
                    (_, EventView::Message(m)),
                ) && m == words[i]);
            }
        }
    }
}

/// How a message is sealed, byte by byte: kind 3 and the counter in the clear,
/// then what ChaCha20-Poly1305 makes of the padded plaintext under the sending
/// key, with a nonce of four zero bytes and the counter, and with the protocol's
/// label and the counter as associated data.
pub proof fn law_messages_are_sealed_like_this(s: SessionView, plaintext: Seq<u8>)
    ensures
        s.encrypted(plaintext) matches Ok((after, f)) ==> {
            let count = crate::bytes::be(s.tx->0.ctr as nat, 8);
            &&& s.phase == Phase::Ready && plaintext.len() <= 32_768
            &&& f.len() >= 9 && f[0] == 3
            &&& f.subrange(1, 9) == count
            &&& crate::crypto::chacha_sealed(
                s.tx->0.key,
                seq![0u8, 0u8, 0u8, 0u8] + count,
                vstd::utf8::encode_utf8("narco/v1/msg"@) + count,
                crate::frame::padded(plaintext),
            ) == Some(f.skip(9))
        },
        s.phase != Phase::Ready ==> s.encrypted(plaintext) == Err::<(SessionView, Seq<u8>), Error>(
            Error::WrongPhase,
        ),
        s.phase == Phase::Ready && plaintext.len() > 32_768 ==> s.encrypted(plaintext) == Err::<
            (SessionView, Seq<u8>),
            Error,
        >(Error::TooLong),
{
    if let Ok((after, f)) = s.encrypted(plaintext) {
        let ctr = s.tx->0.ctr;
        let ct = f.skip(9);
        crate::bytes::lemma_be_len(ctr as nat, 8);
        assert(nonce_of(ctr) =~= seq![0u8, 0u8, 0u8, 0u8] + crate::bytes::be(ctr as nat, 8));
        assert(f.subrange(1, 9) =~= crate::bytes::be(ctr as nat, 8));
        let sealed = crate::crypto::chacha_sealed(
            s.tx->0.key,
            nonce_of(ctr),
            aad_of(ctr),
            crate::frame::padded(plaintext),
        );
        assert(f == crate::frame::msg_bytes(ctr, sealed->0));
        assert(f.skip(9) =~= sealed->0);
    }
}

/// What a confirmed session reads: exactly the frames of kind 3 that bear the
/// counter it waits for and whose ciphertext opens, under the receiving key,
/// that counter's nonce and that counter's associated data, to a padded
/// plaintext. Of the others it says what is wrong with them.
pub proof fn law_what_a_confirmed_session_reads(s: SessionView, raw: Seq<u8>, m: Seq<u8>)
    requires
        s.phase == Phase::Ready,
        s.rx is Some,
        raw.len() >= 10,
        raw[0] == 3,
    ensures
        ({
            let rx = s.rx->0;
            let count = crate::bytes::be(rx.ctr as nat, 8);
            let got = crate::bytes::be_value(raw.subrange(1, 9));
            let opened = crate::crypto::chacha_opened(
                rx.key,
                seq![0u8, 0u8, 0u8, 0u8] + count,
                vstd::utf8::encode_utf8("narco/v1/msg"@) + count,
                raw.skip(9),
            );
            &&& (s.accepted(raw) matches Ok((_, EventView::Message(read))) && read == m) <==> (
            got == rx.ctr && m.len() <= 32_768 && opened == Some(crate::frame::padded(m)))
            &&& s.accepted(raw) matches Err(e) ==> e == (if got != rx.ctr {
                Error::OutOfOrder { expected: rx.ctr, got: got as u64 }
            } else if opened is None {
                Error::Decrypt
            } else {
                Error::Padding
            })
        }),
{
    let rx = s.rx->0;
    crate::bytes::lemma_be_len(rx.ctr as nat, 8);
    crate::bytes::lemma_be_of_value(raw.subrange(1, 9));
    crate::bytes::lemma_pow256_widths();
    assert(raw.skip(1).take(8) =~= raw.subrange(1, 9));
    assert(raw.skip(1).skip(8) =~= raw.skip(9));
    assert(nonce_of(rx.ctr) =~= seq![0u8, 0u8, 0u8, 0u8] + crate::bytes::be(rx.ctr as nat, 8));
    let opened = crate::crypto::chacha_opened(
        rx.key,
        nonce_of(rx.ctr),
        aad_of(rx.ctr),
        raw.skip(9),
    );
    if let Some(p) = opened {
        crate::frame::law_only_padding_unpads(p);
    }
    if m.len() <= 32_768 {
        crate::frame::law_padding_round_trips(m);
    }
}

proof fn lemma_byte_order(a: Seq<u8>, b: Seq<u8>, k: int)
    requires
        0 <= k < a.len(),
        k < b.len(),
        a.take(k) == b.take(k),
        a[k] < b[k],
    ensures
        sorts_before(a, b),
        !sorts_before(b, a),
    decreases k,
{
    if k > 0 {
        assert(a[0] == a.take(k)[0]);
        assert(b[0] == b.take(k)[0]);
        assert(a.skip(1).take(k - 1) =~= a.take(k).skip(1));
        assert(b.skip(1).take(k - 1) =~= b.take(k).skip(1));
        lemma_byte_order(a.skip(1), b.skip(1), k - 1);
    }
}

/// What two peers draw from the key they agreed on. The transcript is the two
/// handshake messages, the one that is lower at the first byte in which they
/// differ in front. Its sender is side A and the other side B: each sends with
/// its own side's key and its own side's tag, and reads with the other's.
pub proof fn law_sides_are_told_apart_by_their_messages(
    key: Seq<u8>,
    low: Seq<u8>,
    high: Seq<u8>,
    k: int,
)
    requires
        0 <= k < low.len(),
        k < high.len(),
        low.take(k) == high.take(k),
        low[k] < high[k],
    ensures
        ({
            let drawn = |info: Seq<char>|
                crate::crypto::hkdf_sha256(
                    Some(low + high),
                    key,
                    vstd::utf8::encode_utf8(info),
                    32,
                );
            let a = agreed(key, low, high);
            let b = agreed(key, high, low);
            &&& a.my_confirm == drawn("narco/v1/confirm-A"@) && b.peer_confirm == a.my_confirm
            &&& b.my_confirm == drawn("narco/v1/confirm-B"@) && a.peer_confirm == b.my_confirm
            &&& a.tx == drawn("narco/v1/key-A"@) && b.rx == a.tx
            &&& b.tx == drawn("narco/v1/key-B"@) && a.rx == b.tx
        }),
{
    lemma_byte_order(low, high, k);
}

/// What becomes of a handshake message: our own is a reflection, one that the
/// exchange cannot use is malformed, and any other agrees a key, from which tags
/// and transport keys are drawn. Both counters begin at zero, the exchange is
/// used up, and our tag is sent.
pub proof fn law_what_a_handshake_message_does(s: SessionView, peer: Seq<u8>)
    requires
        s.phase == Phase::AwaitPake,
        s.spake is Some,
        peer.len() == 33,
    ensures
        ({
            let e = s.spake->0;
            let key = crate::pake::spake_key(e.password, e.identity, e.scalar, peer);
            let keys = agreed(key->0, s.my_pake, peer);
            match s.accepted(seq![1u8] + peer) {
                Err(why) => if peer == s.my_pake {
                    why == Error::Reflection
                } else {
                    key is None && why == Error::BadHandshake
                },
                Ok((after, event)) => {
                    &&& peer != s.my_pake && key is Some
                    &&& after.phase == Phase::AwaitConfirm
                    &&& after.spake is None
                    &&& after.room_id == s.room_id
                    &&& after.my_confirm == keys.my_confirm
                    &&& after.peer_confirm_expected == keys.peer_confirm
                    &&& after.tx == Some(DirView { key: keys.tx, ctr: 0 })
                    &&& after.rx == Some(DirView { key: keys.rx, ctr: 0 })
                    &&& event == EventView::Send(seq![2u8] + keys.my_confirm)
                },
            }
        }),
{
    assert((seq![1u8] + peer).skip(1) =~= peer);
}

/// What becomes of a confirmation tag: the expected one confirms the session,
/// which forgets both tags and keeps its keys; any other is a wrong secret.
pub proof fn law_what_a_confirmation_does(s: SessionView, tag: Seq<u8>)
    requires
        s.phase == Phase::AwaitConfirm,
        tag.len() == 32,
    ensures
        match s.accepted(seq![2u8] + tag) {
            Ok((after, event)) => {
                &&& tag == s.peer_confirm_expected
                &&& event == EventView::Ready
                &&& after.phase == Phase::Ready
                &&& after.tx == s.tx && after.rx == s.rx
                &&& forall|i: int|
                    0 <= i < 32 ==> #[trigger] after.my_confirm[i] == 0
                        && after.peer_confirm_expected[i] == 0
            },
            Err(e) => tag != s.peer_confirm_expected && e == Error::ConfirmMismatch,
        },
{
    assert((seq![2u8] + tag).skip(1) =~= tag);
}

/// Frames out of turn are refused: a session takes the one kind of frame that
/// its phase waits for, and a session that has ended takes none.
pub proof fn law_frames_out_of_turn_are_refused(s: SessionView, raw: Seq<u8>)
    requires
        crate::frame::parsed(raw) is Ok,
    ensures
        s.phase == Phase::Dead ==> s.accepted(raw) == Err::<(SessionView, EventView), Error>(
            Error::Dead,
        ),
        s.phase == Phase::AwaitPake && raw[0] != 1 || s.phase == Phase::AwaitConfirm && raw[0] != 2
            || s.phase == Phase::Ready && raw[0] != 3 ==> s.accepted(raw) == Err::<
            (SessionView, EventView),
            Error,
        >(Error::WrongPhase),
{
}

/// A session that has ended holds no key, no handshake and no tag.
pub proof fn law_an_ended_session_holds_nothing(s: SessionView, raw: Seq<u8>)
    requires
        s.accepted(raw) is Err,
    ensures
        ({
            let after = s.after_frame(raw);
            &&& after.phase == Phase::Dead
            &&& after.tx is None && after.rx is None && after.spake is None
            &&& after.my_pake.len() == 0
            &&& forall|i: int|
                0 <= i < 32 ==> #[trigger] after.my_confirm[i] == 0 && after.peer_confirm_expected[i]
                    == 0
        }),
{
}

/// A fresh session is bound to what it was derived from: it proves knowledge of
/// the password, for the room and no other, and has sent nothing yet but its
/// handshake message.
pub proof fn law_a_fresh_session_is_bound_to_its_room(
    s: SessionView,
    derived: crate::kdf::DerivedView,
)
    requires
        s.is_fresh(derived),
    ensures
        s.phase == Phase::AwaitPake,
        s.room_id == derived.room_id,
        s.spake is Some,
        s.spake->0.password == derived.pake_pw,
        s.spake->0.identity == vstd::utf8::encode_utf8(derived.room_id),
        s.my_pake == crate::pake::spake_message(derived.pake_pw, s.spake->0.scalar),
        s.my_pake.len() == 33 && s.my_pake[0] == 0x53,
        s.tx is None && s.rx is None,
{
}

/// The length of a frame shows the bucket that its plaintext falls into, and
/// nothing else: it is the bucket's size and 25 bytes.
pub proof fn law_a_frame_shows_only_its_bucket(a: nat, b: nat)
    ensures
        sealed_len(a) == crate::frame::bucket(a) + 25,
        sealed_len(a) == sealed_len(b) <==> crate::frame::bucket(a) == crate::frame::bucket(b),
{
}

/// A message that only begins another comes before it, and none comes before
/// itself.
pub proof fn law_a_beginning_comes_first(a: Seq<u8>, rest: Seq<u8>)
    requires
        rest.len() > 0,
    ensures
        sorts_before(a, a + rest),
        !sorts_before(a + rest, a),
        !sorts_before(a, a),
        transcript(a + rest, a) == a + (a + rest),
        transcript(a, a + rest) == a + (a + rest),
    decreases a.len(),
{
    if a.len() > 0 {
        law_a_beginning_comes_first(a.skip(1), rest);
        assert((a + rest).skip(1) =~= a.skip(1) + rest);
        assert((a + rest)[0] == a[0]);
    } else {
        assert(a + rest =~= rest);
    }
}

} // verus!
