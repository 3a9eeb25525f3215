//! The rules of the relay — a blind, in-memory pipe for exactly two peers.
//!
//! Its most important properties are absences:
//!
//! * There is **no database, no disk write, and no persistence** of any kind.
//!   Rooms live in one map and vanish when the process ends.
//! * There are **no keys and no cryptography** here. A relay could not decrypt a
//!   message if it wanted to.
//! * There is **no parsing on the relay path**. Exactly one frame per connection
//!   is inspected — the join frame — and every byte after that is copied from
//!   one socket to the other without being looked at.
//!
//! Sockets and clocks are elsewhere: a connection is known by a number, a time
//! is a count of nanoseconds, and what is to be written to whom is handed back
//! as a list of deliveries.

use std::collections::HashMap;
use vstd::prelude::*;
use vstd::slice::slice_subrange;
use crate::kdf::is_room_id_bytes;

verus! {

broadcast use vstd::std_specs::hash::group_hash_axioms;

/// Idle time after which a room is destroyed, in nanoseconds.
pub const IDLE_TIMEOUT: u64 = 600_000_000_000;

/// Largest relayed frame. The biggest legitimate payload is a 64 KiB padding
/// bucket plus AEAD and framing overhead.
pub const MAX_FRAME: usize = 128 * 1024;

/// Backstop against memory exhaustion by room creation.
pub const MAX_ROOMS: usize = 20_000;

/// Kind byte of the join frame. Distinct from every peer-to-peer kind.
pub const KIND_JOIN: u8 = 0x00;

pub const ROOM_ID_LEN: usize = 32;

// Control messages are fixed strings, so a relay needs no JSON serializer.
pub const SYS_WAITING: &'static str = "{\"t\":\"sys\",\"e\":\"waiting\"}";

pub const SYS_PEER_JOINED: &'static str = "{\"t\":\"sys\",\"e\":\"peer_joined\"}";

pub const SYS_PEER_LEFT: &'static str = "{\"t\":\"sys\",\"e\":\"peer_left\"}";

pub const SYS_ROOM_FULL: &'static str = "{\"t\":\"sys\",\"e\":\"room_full\"}";

pub const SYS_EXPIRED: &'static str = "{\"t\":\"sys\",\"e\":\"expired\"}";

/// Something to write to a peer's socket.
#[derive(Debug, PartialEq, Eq)]
pub enum Out {
    /// A control message.
    Sys(&'static str),
    /// Another peer's bytes.
    Bin(Vec<u8>),
    /// Flush what is queued, then close.
    Close,
}

/// Something to write, and the connection to write it to.
#[derive(Debug, PartialEq, Eq)]
pub struct Delivery {
    pub to: u64,
    pub out: Out,
}

/// What is written to a socket.
pub enum OutView {
    Sys(Seq<char>),
    Bin(Seq<u8>),
    Close,
}

/// What is written, and to whom.
pub struct DeliveryView {
    pub to: u64,
    pub out: OutView,
}

impl View for Out {
    type V = OutView;

    open spec fn view(&self) -> OutView {
        match *self {
            Out::Sys(s) => OutView::Sys(s@),
            Out::Bin(b) => OutView::Bin(b@),
            Out::Close => OutView::Close,
        }
    }
}

impl View for Delivery {
    type V = DeliveryView;

    open spec fn view(&self) -> DeliveryView {
        DeliveryView { to: self.to, out: self.out@ }
    }
}

/// What a list of deliveries writes.
pub open spec fn written(deliveries: Seq<Delivery>) -> Seq<DeliveryView> {
    Seq::new(deliveries.len(), |i: int| deliveries[i]@)
}

/// A room.
#[derive(Clone, Copy, Debug)]
pub struct Room {
    /// Exactly two slots. This pair is the entire reason a third peer cannot
    /// join — there is nowhere to put one.
    pub peers: (Option<u64>, Option<u64>),
    pub last_activity: u64,
}

/// All rooms of a relay.
pub struct AppState {
    /// The only place room state exists. Never serialized, never written out.
    pub rooms: HashMap<u128, Room>,
}

impl View for AppState {
    type V = Map<u128, Room>;

    open spec fn view(&self) -> Map<u128, Room> {
        self.rooms@
    }
}

/// A control message for whoever is in a slot.
pub open spec fn told(peer: Option<u64>, text: Seq<char>) -> Seq<DeliveryView> {
    match peer {
        Some(to) => seq![DeliveryView { to, out: OutView::Sys(text) }],
        None => Seq::empty(),
    }
}

/// A last control message for whoever is in a slot, and the end.
pub open spec fn dismissed(peer: Option<u64>, text: Seq<char>) -> Seq<DeliveryView> {
    match peer {
        Some(to) => seq![
            DeliveryView { to, out: OutView::Sys(text) },
            DeliveryView { to, out: OutView::Close },
        ],
        None => Seq::empty(),
    }
}

/// A last control message for everyone in a room, and the end.
pub open spec fn farewell(room: Room, text: Seq<char>) -> Seq<DeliveryView> {
    dismissed(room.peers.0, text) + dismissed(room.peers.1, text)
}

/// How many peers are in a room.
pub open spec fn occupancy(room: Room) -> nat {
    (if room.peers.0 is Some {
        1nat
    } else {
        0nat
    }) + (if room.peers.1 is Some {
        1nat
    } else {
        0nat
    })
}

/// An empty room that was active at `now`.
pub open spec fn empty_room(now: u64) -> Room {
    Room { peers: (None, None), last_activity: now }
}

/// The room a joiner finds: the one that is there, or a new one.
pub open spec fn room_found(rooms: Map<u128, Room>, id: u128, now: u64) -> Room {
    if rooms.contains_key(id) {
        rooms[id]
    } else {
        empty_room(now)
    }
}

/// Whether a relay at capacity turns a joiner away: it makes no new room, but
/// still fills those it has.
pub open spec fn at_capacity(rooms: Map<u128, Room>, id: u128) -> bool {
    !rooms.contains_key(id) && rooms.len() >= MAX_ROOMS
}

/// The slot a joiner takes, if there is one.
pub open spec fn slot_taken(rooms: Map<u128, Room>, id: u128, now: u64) -> Option<usize> {
    let room = room_found(rooms, id, now);
    if at_capacity(rooms, id) {
        None
    } else if room.peers.0 is None {
        Some(0)
    } else if room.peers.1 is None {
        Some(1)
    } else {
        None
    }
}

/// A room with one peer more.
pub open spec fn room_joined(room: Room, slot: usize, peer: u64, now: u64) -> Room {
    Room {
        peers: if slot == 0 {
            (Some(peer), room.peers.1)
        } else {
            (room.peers.0, Some(peer))
        },
        last_activity: now,
    }
}

/// The rooms after a peer asked to join.
pub open spec fn rooms_joined(rooms: Map<u128, Room>, id: u128, peer: u64, now: u64) -> Map<
    u128,
    Room,
> {
    match slot_taken(rooms, id, now) {
        Some(slot) => rooms.insert(id, room_joined(room_found(rooms, id, now), slot, peer, now)),
        None => rooms,
    }
}

/// What a join tells the peers in the room: the first to wait, both that they
/// are two.
pub open spec fn join_notices(rooms: Map<u128, Room>, id: u128, peer: u64, now: u64) -> Seq<
    DeliveryView,
> {
    match slot_taken(rooms, id, now) {
        Some(slot) => {
            let room = room_joined(room_found(rooms, id, now), slot, peer, now);
            if occupancy(room) == 2 {
                told(room.peers.0, SYS_PEER_JOINED@) + told(room.peers.1, SYS_PEER_JOINED@)
            } else {
                told(Some(peer), SYS_WAITING@)
            }
        },
        None => Seq::empty(),
    }
}

/// Whether a room has been silent for too long.
pub open spec fn is_idle(room: Room, now: u64) -> bool {
    now - room.last_activity >= IDLE_TIMEOUT
}

/// The rooms that have not been silent for too long.
pub open spec fn rooms_active(rooms: Map<u128, Room>, now: u64) -> Map<u128, Room> {
    rooms.restrict(rooms.dom().filter(|id: u128| !is_idle(rooms[id], now)))
}

/// What the peers of expired rooms are told, room after room.
pub open spec fn expiry_notices(rooms: Map<u128, Room>, ids: Seq<u128>) -> Seq<DeliveryView>
    decreases ids.len(),
{
    if ids.len() == 0 {
        Seq::empty()
    } else {
        expiry_notices(rooms, ids.drop_last()) + farewell(rooms[ids.last()], SYS_EXPIRED@)
    }
}

/// Whether `ids` are the expired rooms, each of them once, in some order.
pub open spec fn lists_expired(rooms: Map<u128, Room>, now: u64, ids: Seq<u128>) -> bool {
    &&& ids.no_duplicates()
    &&& forall|id: u128| #[trigger]
        ids.contains(id) <==> rooms.contains_key(id) && is_idle(rooms[id], now)
}

/// The rooms after one showed activity.
pub open spec fn rooms_touched(rooms: Map<u128, Room>, id: u128, now: u64) -> Map<u128, Room> {
    if rooms.contains_key(id) {
        rooms.insert(id, Room { last_activity: now, ..rooms[id] })
    } else {
        rooms
    }
}

fn tell(out: &mut Vec<Delivery>, peer: Option<u64>, text: &'static str)
    ensures
        written(final(out)@) == written(old(out)@) + told(peer, text@),
{
    if let Some(to) = peer {
        out.push(Delivery { to, out: Out::Sys(text) });
    }
    assert(written(out@) =~= written(old(out)@) + told(peer, text@));
}

fn dismiss(out: &mut Vec<Delivery>, peer: Option<u64>, text: &'static str)
    ensures
        written(final(out)@) == written(old(out)@) + dismissed(peer, text@),
{
    if let Some(to) = peer {
        out.push(Delivery { to, out: Out::Sys(text) });
        out.push(Delivery { to, out: Out::Close });
    }
    assert(written(out@) =~= written(old(out)@) + dismissed(peer, text@));
}

fn say_farewell(out: &mut Vec<Delivery>, room: &Room, text: &'static str)
    ensures
        written(final(out)@) == written(old(out)@) + farewell(*room, text@),
{
    dismiss(out, room.peers.0, text);
    dismiss(out, room.peers.1, text);
    assert(written(out@) =~= written(old(out)@) + farewell(*room, text@));
}

impl AppState {
    /// A relay without rooms.
    pub fn new() -> (state: Self)
        ensures
            state@ == Map::<u128, Room>::empty(),
    {
        AppState { rooms: HashMap::new() }
    }

    /// The room with this identifier.
    pub fn room(&self, id: u128) -> (room: Option<Room>)
        ensures
            room == (if self@.contains_key(id) {
                Some(self@[id])
            } else {
                None
            }),
    {
        match self.rooms.get(&id) {
            Some(room) => Some(*room),
            None => None,
        }
    }

    /// Place a peer into a free slot, creating the room if needed.
    ///
    /// Returns the slot index, or `None` if the room is full or the relay is at
    /// capacity, and what the peers in the room are told.
    pub fn join_room(&mut self, id: u128, peer: u64, now: u64) -> (r: (
        Option<usize>,
        Vec<Delivery>,
    ))
        ensures
            final(self)@ == rooms_joined(old(self)@, id, peer, now),
            r.0 == slot_taken(old(self)@, id, now),
            written(r.1@) == join_notices(old(self)@, id, peer, now),
    {
        let mut notices: Vec<Delivery> = Vec::new();
        let found: Option<Room> = self.room(id);
        if found.is_none() && self.rooms.len() >= MAX_ROOMS {
            assert(written(notices@) =~= Seq::empty());
            return (None, notices);
        }
        let mut room: Room = match found {
            Some(room) => room,
            None => Room { peers: (None, None), last_activity: now },
        };
        let slot: usize = if room.peers.0.is_none() {
            0
        } else if room.peers.1.is_none() {
            1
        } else {
            assert(written(notices@) =~= Seq::empty());
            return (None, notices);
        };
        if slot == 0 {
            room.peers = (Some(peer), room.peers.1);
        } else {
            room.peers = (room.peers.0, Some(peer));
        }
        room.last_activity = now;
        self.rooms.insert(id, room);
        if room.peers.0.is_some() && room.peers.1.is_some() {
            tell(&mut notices, room.peers.0, SYS_PEER_JOINED);
            tell(&mut notices, room.peers.1, SYS_PEER_JOINED);
        } else {
            tell(&mut notices, Some(peer), SYS_WAITING);
        }
        assert(written(notices@) =~= join_notices(old(self)@, id, peer, now));
        (Some(slot), notices)
    }

    /// Remove a room and tell whoever is left that it is over.
    pub fn destroy_room(&mut self, id: u128) -> (notices: Vec<Delivery>)
        ensures
            final(self)@ == old(self)@.remove(id),
            written(notices@) == (if old(self)@.contains_key(id) {
                farewell(old(self)@[id], SYS_PEER_LEFT@)
            } else {
                Seq::empty()
            }),
    {
        let mut notices: Vec<Delivery> = Vec::new();
        if let Some(room) = self.rooms.remove(&id) {
            say_farewell(&mut notices, &room, SYS_PEER_LEFT);
            assert(written(notices@) =~= farewell(room, SYS_PEER_LEFT@));
        } else {
            assert(written(notices@) =~= Seq::empty());
            assert(old(self)@.remove(id) =~= old(self)@);
        }
        notices
    }

    /// Reset a room's idle timer.
    pub fn touch(&mut self, id: u128, now: u64)
        ensures
            final(self)@ == rooms_touched(old(self)@, id, now),
    {
        if let Some(room) = self.room(id) {
            self.rooms.insert(id, Room { peers: room.peers, last_activity: now });
        }
    }

    /// Destroy the rooms that have been silent for [`IDLE_TIMEOUT`], and tell
    /// their peers.
    pub fn reap(&mut self, now: u64) -> (notices: Vec<Delivery>)
        ensures
            final(self)@ == rooms_active(old(self)@, now),
            exists|ids: Seq<u128>| #[trigger]
                lists_expired(old(self)@, now, ids) && written(notices@) == expiry_notices(
                    old(self)@,
                    ids,
                ),
    {
        let ids: Vec<u128> = self.room_ids();
        let ghost before = self@;
        let ghost mut expired: Seq<u128> = Seq::empty();
        let mut notices: Vec<Delivery> = Vec::new();
        assert(written(notices@) =~= expiry_notices(before, expired));
        let mut i: usize = 0;
        while i < ids.len()
            invariant
                i <= ids@.len(),
                ids@.no_duplicates(),
                forall|id: u128| #[trigger] ids@.contains(id) <==> before.contains_key(id),
                expired.no_duplicates(),
                forall|id: u128| #[trigger]
                    expired.contains(id) <==> ids@.take(i as int).contains(id) && is_idle(
                        before[id],
                        now,
                    ),
                forall|id: u128| #[trigger]
                    self@.contains_key(id) <==> before.contains_key(id) && !expired.contains(id),
                forall|id: u128| #[trigger] self@.contains_key(id) ==> self@[id] == before[id],
                written(notices@) == expiry_notices(before, expired),
            decreases ids@.len() - i,
        {
            let id: u128 = ids[i];
            proof {
                assert(ids@.contains(id));
                lemma_take_next(ids@, i as int);
            }
            if let Some(room) = self.room(id) {
                if now >= room.last_activity && now - room.last_activity >= IDLE_TIMEOUT {
                    self.rooms.remove(&id);
                    say_farewell(&mut notices, &room, SYS_EXPIRED);
                    proof {
                        let next = expired.push(id);
                        assert(next.drop_last() =~= expired);
                        lemma_push_contains(expired, id);
                        expired = next;
                    }
                }
            }
            i = i + 1;
        }
        proof {
            assert(ids@.take(i as int) =~= ids@);
            assert(self@ =~= rooms_active(before, now)) by {
                assert forall|id: u128|
                    self@.contains_key(id) == rooms_active(before, now).contains_key(id) by {
                    assert(before.contains_key(id) == ids@.contains(id));
                    assert(expired.contains(id) == (ids@.contains(id) && is_idle(before[id], now)));
                }
            }
            assert(lists_expired(before, now, expired)) by {
                assert forall|id: u128| #[trigger]
                    expired.contains(id) <==> before.contains_key(id) && is_idle(
                        before[id],
                        now,
                    ) by {
                    assert(before.contains_key(id) == ids@.contains(id));
                }
            }
        }
        notices
    }

    /// The identifiers of all rooms, in no particular order.
    fn room_ids(&self) -> (ids: Vec<u128>)
        ensures
            ids@.no_duplicates(),
            forall|id: u128| #[trigger] ids@.contains(id) <==> self@.contains_key(id),
    {
        let mut ids: Vec<u128> = Vec::new();
        let ghost all: Seq<u128> = vstd::std_specs::iter::IteratorSpec::remaining(
            &vstd::std_specs::hash::spec_keys_iter(&self.rooms),
        ).unref();
        for id in it: self.rooms.keys()
            invariant
                it.seq().unref() == all,
                all.to_set() == self.rooms@.dom(),
                all.no_duplicates(),
                ids@ == all.take(it.index() as int),
        {
            ids.push(*id);
        }
        assert forall|id: u128| #[trigger] ids@.contains(id) <==> self@.contains_key(id) by {
            assert(ids@ =~= all);
            assert(ids@.to_set().contains(id) == ids@.contains(id));
        }
        ids
    }
}

proof fn lemma_push_contains(s: Seq<u128>, x: u128)
    requires
        s.no_duplicates(),
        !s.contains(x),
    ensures
        s.push(x).no_duplicates(),
        forall|y: u128| #[trigger] s.push(x).contains(y) <==> s.contains(y) || y == x,
{
    assert forall|y: u128| #[trigger] s.push(x).contains(y) <==> s.contains(y) || y == x by {
        if s.contains(y) {
            let k = choose|k: int| 0 <= k < s.len() && s[k] == y;
            assert(s.push(x)[k] == y);
        }
        assert(s.push(x)[s.len() as int] == x);
    }
}

proof fn lemma_take_next(s: Seq<u128>, n: int)
    requires
        0 <= n < s.len(),
        s.no_duplicates(),
    ensures
        !s.take(n).contains(s[n]),
        forall|y: u128| #[trigger] s.take(n + 1).contains(y) <==> s.take(n).contains(y) || y == s[n],
{
    assert(s.take(n + 1) =~= s.take(n).push(s[n]));
    lemma_push_contains(s.take(n), s[n]);
}

/// The value of a lowercase hexadecimal digit.
pub open spec fn nibble(b: u8) -> nat {
    if b <= 0x39 {
        (b - 0x30) as nat
    } else {
        (b - 0x57) as nat
    }
}

/// The number that hexadecimal digits spell.
pub open spec fn hex_number(digits: Seq<u8>) -> nat
    decreases digits.len(),
{
    if digits.len() == 0 {
        0
    } else {
        hex_number(digits.drop_last()) * 16 + nibble(digits.last())
    }
}

/// The room that a join frame asks for, or `None` where it is not one: the
/// kind byte, then exactly 32 lowercase hex characters.
pub open spec fn room_asked(frame: Seq<u8>) -> Option<u128> {
    if frame.len() == 1 + ROOM_ID_LEN && frame[0] == KIND_JOIN && crate::kdf::valid_room_id(
        frame.skip(1),
    ) {
        Some(hex_number(frame.skip(1)) as u128)
    } else {
        None
    }
}

spec fn pow16(n: nat) -> nat
    decreases n,
{
    if n == 0 {
        1
    } else {
        16 * pow16((n - 1) as nat)
    }
}

proof fn lemma_hex_number_bound(digits: Seq<u8>)
    requires
        forall|i: int| 0 <= i < digits.len() ==> crate::kdf::is_hex_byte(#[trigger] digits[i]),
    ensures
        hex_number(digits) < pow16(digits.len()),
    decreases digits.len(),
{
    if digits.len() > 0 {
        assert(crate::kdf::is_hex_byte(digits[digits.len() - 1]));
        assert forall|i: int| 0 <= i < digits.drop_last().len() implies crate::kdf::is_hex_byte(
            #[trigger] digits.drop_last()[i],
        ) by {
            assert(crate::kdf::is_hex_byte(digits[i]));
        }
        lemma_hex_number_bound(digits.drop_last());
    }
}

/// Exactly 32 lowercase hex characters.
pub fn is_valid_room_id(s: &str) -> (valid: bool)
    ensures
        valid == crate::kdf::valid_room_id(crate::text::utf8(s@)),
{
    is_room_id_bytes(s.as_bytes())
}

/// The number that names a room: its identifier, read as hexadecimal.
pub fn room_number(id: &[u8]) -> (n: u128)
    requires
        crate::kdf::valid_room_id(id@),
    ensures
        n == hex_number(id@),
{
    let mut n: u128 = 0;
    let mut i: usize = 0;
    while i < 32
        invariant
            i <= 32 == id@.len(),
            crate::kdf::valid_room_id(id@),
            n == hex_number(id@.take(i as int)),
        decreases 32 - i,
    {
        let b: u8 = id[i];
        let digit: u8 = if b <= 0x39 {
            b - 0x30
        } else {
            b - 0x57
        };
        proof {
            let next = id@.take(i + 1);
            assert(next.drop_last() =~= id@.take(i as int));
            lemma_hex_number_bound(next);
            reveal_with_fuel(pow16, 33);
        }
        n = n * 16 + digit as u128;
        i = i + 1;
    }
    assert(id@.take(32) =~= id@);
    n
}

/// Read a join frame. This is the only frame a relay ever parses.
pub fn read_join(frame: &[u8]) -> (room: Option<u128>)
    ensures
        room == room_asked(frame@),
{
    if frame.len() != 1 + ROOM_ID_LEN || frame[0] != KIND_JOIN {
        return None;
    }
    let id: &[u8] = slice_subrange(frame, 1, frame.len());
    assert(id@ =~= frame@.skip(1));
    if !is_room_id_bytes(id) {
        return None;
    }
    Some(room_number(id))
}

/// What a client sent.
#[derive(Debug)]
pub enum ClientMessage {
    Binary(Vec<u8>),
    Text,
    /// A ping or a pong.
    Keepalive,
    Close,
}

/// What became of a connection that had its chance to join.
#[derive(Debug)]
pub enum Entrance {
    /// The connection is in a room and its frames are relayed.
    Entered { room: u128, slot: usize, notices: Vec<Delivery> },
    /// The connection is closed after these are written.
    Refused(Vec<Delivery>),
}

/// What became of a frame from a peer.
#[derive(Debug)]
pub enum Relayed {
    /// Hand this to the other peer.
    Forward(Delivery),
    /// Nothing to do.
    Nothing,
    /// The connection is over, and its room with it.
    End,
}

/// What a client message asks of the relay.
#[derive(Clone, Copy, PartialEq, Eq, Debug, Structural)]
pub enum Request {
    /// Relay the payload.
    Relay,
    /// Count as activity only.
    Touch,
    /// End the connection.
    End,
}

/// What a client message asks for: payloads that are not too large are
/// relayed, keepalives are activity, and everything else ends the connection.
pub open spec fn requested(msg: ClientMessage) -> Request {
    match msg {
        ClientMessage::Binary(payload) => if payload@.len() > MAX_FRAME {
            Request::End
        } else {
            Request::Relay
        },
        ClientMessage::Text => Request::End,
        ClientMessage::Keepalive => Request::Touch,
        ClientMessage::Close => Request::End,
    }
}

impl ClientMessage {
    /// What this message asks of the relay.
    pub fn request(&self) -> (r: Request)
        ensures
            r == requested(*self),
            *self matches ClientMessage::Binary(payload) ==> r == (if payload@.len() <= 131_072 {
                Request::Relay
            } else {
                Request::End
            }),
            self is Text || self is Close ==> r == Request::End,
            self is Keepalive ==> r == Request::Touch,
    {
        match self {
            ClientMessage::Binary(payload) => if payload.len() > MAX_FRAME {
                Request::End
            } else {
                Request::Relay
            },
            // A client must never send text.
            ClientMessage::Text => Request::End,
            ClientMessage::Keepalive => Request::Touch,
            ClientMessage::Close => Request::End,
        }
    }
}

/// The peer in the other slot.
pub open spec fn other_peer(room: Room, slot: usize) -> Option<u64> {
    if slot == 0 {
        room.peers.1
    } else {
        room.peers.0
    }
}

/// The room a connection's first message asks for, if it is a join frame.
pub open spec fn first_message_asks(first: Option<ClientMessage>) -> Option<u128> {
    match first {
        Some(ClientMessage::Binary(frame)) => room_asked(frame@),
        _ => None,
    }
}

impl AppState {
    /// Admit a connection by the first message it sent, or `None` where it sent
    /// none in time. Only a well-formed join frame is a valid first message.
    ///
    /// A connection that is refused for want of room is told so; the existing
    /// conversation is left completely undisturbed.
    pub fn enter(&mut self, first: Option<ClientMessage>, peer: u64, now: u64) -> (r: Entrance)
        ensures
            final(self)@ == (match first_message_asks(first) {
                Some(id) => rooms_joined(old(self)@, id, peer, now),
                None => old(self)@,
            }),
            match first_message_asks(first) {
                None => r matches Entrance::Refused(out) && written(out@) == seq![
                    DeliveryView { to: peer, out: OutView::Close },
                ],
                Some(id) => match slot_taken(old(self)@, id, now) {
                    None => r matches Entrance::Refused(out) && written(out@) == dismissed(
                        Some(peer),
                        SYS_ROOM_FULL@,
                    ),
                    Some(taken) => r matches Entrance::Entered { room, slot, notices } && room == id
                        && slot == taken && written(notices@) == join_notices(
                        old(self)@,
                        id,
                        peer,
                        now,
                    ),
                },
            },
    {
        let asked: Option<u128> = match &first {
            Some(ClientMessage::Binary(frame)) => read_join(frame.as_slice()),
            _ => None,
        };
        match asked {
            None => {
                let mut out: Vec<Delivery> = Vec::new();
                out.push(Delivery { to: peer, out: Out::Close });
                assert(written(out@) =~= seq![DeliveryView { to: peer, out: OutView::Close }]);
                Entrance::Refused(out)
            },
            Some(id) => {
                let (slot, notices) = self.join_room(id, peer, now);
                match slot {
                    Some(slot) => Entrance::Entered { room: id, slot, notices },
                    None => {
                        let mut out: Vec<Delivery> = Vec::new();
                        dismiss(&mut out, Some(peer), SYS_ROOM_FULL);
                        assert(written(out@) =~= dismissed(Some(peer), SYS_ROOM_FULL@));
                        Entrance::Refused(out)
                    },
                }
            },
        }
    }

    /// Copy a payload to the other slot.
    ///
    /// `within_rate` says whether the connection keeps to its rate limit;
    /// tripping it ends the connection, which ends the room. So does sending to
    /// a room that is gone: reaped or torn down in the meantime. With no peer
    /// in the other slot yet the frame is dropped, and nothing is buffered for
    /// later.
    pub fn relay(&mut self, id: u128, slot: usize, payload: Vec<u8>, within_rate: bool, now: u64) -> (r:
        Relayed)
        requires
            slot <= 1,
        ensures
            final(self)@ == (if within_rate {
                rooms_touched(old(self)@, id, now)
            } else {
                old(self)@
            }),
            if !within_rate || !old(self)@.contains_key(id) {
                r is End
            } else {
                match other_peer(old(self)@[id], slot) {
                    Some(peer) => r matches Relayed::Forward(d) && d@ == (DeliveryView {
                        to: peer,
                        out: OutView::Bin(payload@),
                    }),
                    None => r is Nothing,
                }
            },
            r matches Relayed::Forward(d) ==> {
                let peers = old(self)@[id].peers;
                &&& slot == 0 ==> peers.1 == Some(d.to)
                &&& slot == 1 ==> peers.0 == Some(d.to)
                &&& d.out matches Out::Bin(bytes) && bytes@ == payload@
            },
    {
        if !within_rate {
            return Relayed::End;
        }
        match self.room(id) {
            None => Relayed::End,
            Some(room) => {
                self.rooms.insert(id, Room { peers: room.peers, last_activity: now });
                let peer: Option<u64> = if slot == 0 {
                    room.peers.1
                } else {
                    room.peers.0
                };
                match peer {
                    Some(to) => Relayed::Forward(Delivery { to, out: Out::Bin(payload) }),
                    None => Relayed::Nothing,
                }
            },
        }
    }
}

/// A third peer is refused, and the room and its occupants are left as they
/// were.
pub proof fn law_a_third_peer_changes_nothing(
    rooms: Map<u128, Room>,
    id: u128,
    peer: u64,
    now: u64,
)
    requires
        rooms.contains_key(id),
        occupancy(rooms[id]) == 2,
    ensures
        slot_taken(rooms, id, now) is None,
        rooms_joined(rooms, id, peer, now) == rooms,
        join_notices(rooms, id, peer, now).len() == 0,
{
}

/// A room never holds more than two peers, and a join disturbs no other room.
pub proof fn law_joining_is_local(rooms: Map<u128, Room>, id: u128, peer: u64, now: u64, other: u128)
    requires
        other != id,
    ensures
        rooms_joined(rooms, id, peer, now).contains_key(other) == rooms.contains_key(other),
        rooms.contains_key(other) ==> rooms_joined(rooms, id, peer, now)[other] == rooms[other],
        occupancy(room_found(rooms_joined(rooms, id, peer, now), id, now)) <= 2,
{
}

/// A join that is granted puts exactly one more peer into the room.
pub proof fn law_joining_fills_one_slot(rooms: Map<u128, Room>, id: u128, peer: u64, now: u64)
    requires
        slot_taken(rooms, id, now) is Some,
    ensures
        occupancy(rooms_joined(rooms, id, peer, now)[id]) == occupancy(room_found(rooms, id, now))
            + 1,
{
}

/// However many peers ask to join, there are never more rooms than the relay
/// allows; a room that exists still takes its second peer.
pub proof fn law_capacity_is_kept(rooms: Map<u128, Room>, id: u128, peer: u64, now: u64)
    requires
        rooms.dom().finite(),
        rooms.len() <= MAX_ROOMS,
    ensures
        rooms_joined(rooms, id, peer, now).dom().finite(),
        rooms_joined(rooms, id, peer, now).len() <= MAX_ROOMS,
        rooms.contains_key(id) && occupancy(rooms[id]) < 2 ==> slot_taken(rooms, id, now) is Some,
{
    if rooms.contains_key(id) {
        assert(rooms_joined(rooms, id, peer, now).dom() =~= rooms.dom());
    } else {
        assert(rooms_joined(rooms, id, peer, now).dom() =~= rooms.dom() || rooms_joined(
            rooms,
            id,
            peer,
            now,
        ).dom() =~= rooms.dom().insert(id));
    }
}

/// Destroying a room that does not exist changes nothing.
pub proof fn law_destroying_an_unknown_room_is_harmless(rooms: Map<u128, Room>, id: u128)
    requires
        !rooms.contains_key(id),
    ensures
        rooms.remove(id) == rooms,
{
    assert(rooms.remove(id) =~= rooms);
}

/// Activity puts off the end of a room: for as long as the timeout lasts after
/// it, the room is not reaped.
pub proof fn law_activity_keeps_a_room(rooms: Map<u128, Room>, id: u128, now: u64, later: u64)
    requires
        rooms.contains_key(id),
        later - now < IDLE_TIMEOUT,
    ensures
        rooms_active(rooms_touched(rooms, id, now), later).contains_key(id),
        rooms_active(rooms_touched(rooms, id, now), later)[id].peers == rooms[id].peers,
{
}

/// Reaping takes the silent rooms and leaves the others as they are; what it
/// has taken once is not there to be taken again.
pub proof fn law_reaping_takes_exactly_the_silent(rooms: Map<u128, Room>, id: u128, now: u64)
    ensures
        rooms_active(rooms, now).contains_key(id) <==> rooms.contains_key(id) && !is_idle(
            rooms[id],
            now,
        ),
        rooms_active(rooms, now).contains_key(id) ==> rooms_active(rooms, now)[id] == rooms[id],
        rooms_active(rooms_active(rooms, now), now) == rooms_active(rooms, now),
{
    assert(rooms_active(rooms_active(rooms, now), now) =~= rooms_active(rooms, now));
}

proof fn lemma_hex_number_injective(a: Seq<u8>, b: Seq<u8>)
    requires
        a.len() == b.len(),
        forall|i: int| 0 <= i < a.len() ==> crate::kdf::is_hex_byte(#[trigger] a[i]),
        forall|i: int| 0 <= i < b.len() ==> crate::kdf::is_hex_byte(#[trigger] b[i]),
        hex_number(a) == hex_number(b),
    ensures
        a == b,
    decreases a.len(),
{
    if a.len() > 0 {
        assert(crate::kdf::is_hex_byte(a[a.len() - 1]));
        assert(crate::kdf::is_hex_byte(b[b.len() - 1]));
        assert forall|i: int| 0 <= i < a.drop_last().len() implies crate::kdf::is_hex_byte(
            #[trigger] a.drop_last()[i],
        ) by {
            assert(crate::kdf::is_hex_byte(a[i]));
        }
        assert forall|i: int| 0 <= i < b.drop_last().len() implies crate::kdf::is_hex_byte(
            #[trigger] b.drop_last()[i],
        ) by {
            assert(crate::kdf::is_hex_byte(b[i]));
        }
        lemma_hex_number_injective(a.drop_last(), b.drop_last());
        assert(a =~= a.drop_last().push(a.last()));
        assert(b =~= b.drop_last().push(b.last()));
    } else {
        assert(a =~= b);
    }
}

/// Different room identifiers name different rooms.
pub proof fn law_identifiers_name_one_room_each(a: Seq<u8>, b: Seq<u8>)
    requires
        crate::kdf::valid_room_id(a),
        crate::kdf::valid_room_id(b),
        a != b,
    ensures
        room_asked(seq![KIND_JOIN] + a) is Some,
        room_asked(seq![KIND_JOIN] + b) is Some,
        room_asked(seq![KIND_JOIN] + a) != room_asked(seq![KIND_JOIN] + b),
{
    assert((seq![KIND_JOIN] + a).skip(1) =~= a);
    assert((seq![KIND_JOIN] + b).skip(1) =~= b);
    lemma_hex_number_bound(a);
    lemma_hex_number_bound(b);
    reveal_with_fuel(pow16, 33);
    if hex_number(a) == hex_number(b) {
        lemma_hex_number_injective(a, b);
    }
}

/// A join frame is never mistaken for a peer's frame: its kind byte is none of
/// the three that peers use.
pub proof fn law_join_frames_are_not_peer_frames(frame: Seq<u8>)
    requires
        room_asked(frame) is Some,
    ensures
        crate::frame::parsed(frame) is Err,
{
}

/// No two control messages are the same.
pub proof fn law_control_messages_are_distinguishable()
    ensures
        SYS_WAITING@ != SYS_PEER_JOINED@,
        SYS_WAITING@ != SYS_PEER_LEFT@,
        SYS_WAITING@ != SYS_ROOM_FULL@,
        SYS_WAITING@ != SYS_EXPIRED@,
        SYS_PEER_JOINED@ != SYS_PEER_LEFT@,
        SYS_PEER_JOINED@ != SYS_ROOM_FULL@,
        SYS_PEER_JOINED@ != SYS_EXPIRED@,
        SYS_PEER_LEFT@ != SYS_ROOM_FULL@,
        SYS_PEER_LEFT@ != SYS_EXPIRED@,
        SYS_ROOM_FULL@ != SYS_EXPIRED@,
{
    reveal_strlit("{\"t\":\"sys\",\"e\":\"waiting\"}");
    reveal_strlit("{\"t\":\"sys\",\"e\":\"peer_joined\"}");
    reveal_strlit("{\"t\":\"sys\",\"e\":\"peer_left\"}");
    reveal_strlit("{\"t\":\"sys\",\"e\":\"room_full\"}");
    reveal_strlit("{\"t\":\"sys\",\"e\":\"expired\"}");
    assert(SYS_WAITING@[16] == 'w');
    assert(SYS_EXPIRED@[16] == 'e');
    assert(SYS_ROOM_FULL@[16] == 'r');
    assert(SYS_PEER_LEFT@[21] == 'l');
    assert(SYS_PEER_JOINED@[21] == 'j');
    assert(SYS_PEER_LEFT@[16] == 'p');
    assert(SYS_PEER_JOINED@[16] == 'p');
}

/// What a client message asks for: every payload of at most 131,072 bytes is
/// relayed, and every larger one ends the connection; so do text and the end of
/// the connection itself. Keepalives are activity and nothing else.
pub proof fn law_what_a_message_asks_for(payload: Vec<u8>)
    ensures
        payload@.len() <= 131_072 ==> requested(ClientMessage::Binary(payload)) == Request::Relay,
        payload@.len() > 131_072 ==> requested(ClientMessage::Binary(payload)) == Request::End,
        requested(ClientMessage::Text) == Request::End,
        requested(ClientMessage::Close) == Request::End,
        requested(ClientMessage::Keepalive) == Request::Touch,
{
}

/// Every frame that a session sends is relayed: the handshake message, the tag,
/// and a message of any length that can be sent.
pub proof fn law_every_session_frame_is_relayed(payload: Vec<u8>, plaintext: Seq<u8>)
    requires
        plaintext.len() <= crate::frame::MAX_PLAINTEXT,
        payload@.len() == 34 || payload@.len() == 33 || payload@.len()
            == crate::session::sealed_len(plaintext.len()),
    ensures
        requested(ClientMessage::Binary(payload)) == Request::Relay,
{
}

/// A frame goes to the other of the two peers, never back to its sender.
pub proof fn law_frames_go_to_the_other_peer(room: Room)
    ensures
        other_peer(room, 0) == room.peers.1,
        other_peer(room, 1) == room.peers.0,
{
}

/// What is told to one connection.
pub open spec fn tells(to: u64, text: Seq<char>) -> DeliveryView {
    DeliveryView { to, out: OutView::Sys(text) }
}

/// How a room fills. The first peer takes the first slot and is told to wait;
/// the second takes the other, and both are told that they are two. A relay
/// with 20,000 rooms makes no new one, and a room with two peers takes no third.
/// Joining counts as activity.
pub proof fn law_how_a_room_fills(rooms: Map<u128, Room>, id: u128, peer: u64, now: u64)
    ensures
        ({
            let after = rooms_joined(rooms, id, peer, now);
            let notices = join_notices(rooms, id, peer, now);
            let slot = slot_taken(rooms, id, now);
            let waiting = tells(peer, "{\"t\":\"sys\",\"e\":\"waiting\"}"@);
            let joined = "{\"t\":\"sys\",\"e\":\"peer_joined\"}"@;
            if !rooms.contains_key(id) {
                if rooms.len() >= 20_000 {
                    slot is None && after == rooms && notices.len() == 0
                } else {
                    &&& slot == Some(0usize)
                    &&& after == rooms.insert(
                        id,
                        Room { peers: (Some(peer), None), last_activity: now },
                    )
                    &&& notices == seq![waiting]
                }
            } else {
                match rooms[id].peers {
                    (None, None) => {
                        &&& slot == Some(0usize)
                        &&& after[id] == (Room { peers: (Some(peer), None), last_activity: now })
                        &&& notices == seq![waiting]
                    },
                    (Some(first), None) => {
                        &&& slot == Some(1usize)
                        &&& after[id] == (Room {
                            peers: (Some(first), Some(peer)),
                            last_activity: now,
                        })
                        &&& notices == seq![tells(first, joined), tells(peer, joined)]
                    },
                    (None, Some(second)) => {
                        &&& slot == Some(0usize)
                        &&& after[id] == (Room {
                            peers: (Some(peer), Some(second)),
                            last_activity: now,
                        })
                        &&& notices == seq![tells(peer, joined), tells(second, joined)]
                    },
                    (Some(_), Some(_)) => slot is None && after == rooms && notices.len() == 0,
                }
            }
        }),
{
    let notices = join_notices(rooms, id, peer, now);
    let waiting = tells(peer, "{\"t\":\"sys\",\"e\":\"waiting\"}"@);
    let joined = "{\"t\":\"sys\",\"e\":\"peer_joined\"}"@;
    if rooms.contains_key(id) {
        match rooms[id].peers {
            (Some(first), None) => {
                assert(notices =~= seq![tells(first, joined), tells(peer, joined)]);
            },
            (None, Some(second)) => {
                assert(notices =~= seq![tells(peer, joined), tells(second, joined)]);
            },
            _ => {},
        }
    }
}

/// When a room ends, everyone in it, and no one else, is told why and then
/// closed, the first slot first.
pub proof fn law_everyone_in_a_room_is_dismissed(room: Room, text: Seq<char>)
    ensures
        ({
            let out = farewell(room, text);
            let close = |to: u64| DeliveryView { to, out: OutView::Close };
            match room.peers {
                (None, None) => out.len() == 0,
                (Some(a), None) => out == seq![tells(a, text), close(a)],
                (None, Some(b)) => out == seq![tells(b, text), close(b)],
                (Some(a), Some(b)) => out == seq![
                    tells(a, text),
                    close(a),
                    tells(b, text),
                    close(b),
                ],
            }
        }),
{
    let out = farewell(room, text);
    match room.peers {
        (Some(a), None) => {
            assert(out =~= dismissed(Some(a), text));
        },
        (None, Some(b)) => {
            assert(out =~= dismissed(Some(b), text));
        },
        (Some(a), Some(b)) => {
            assert(out =~= seq![
                tells(a, text),
                DeliveryView { to: a, out: OutView::Close },
                tells(b, text),
                DeliveryView { to: b, out: OutView::Close },
            ]);
        },
        _ => {},
    }
}

/// A room is idle once nothing has happened in it for ten minutes, and not
/// before.
pub proof fn law_rooms_idle_after_ten_minutes(room: Room, now: u64)
    ensures
        is_idle(room, now) <==> now >= room.last_activity + 600_000_000_000,
{
}

/// The peers of every room that expires are told so, room after room.
pub proof fn law_every_expired_room_is_told(rooms: Map<u128, Room>, ids: Seq<u128>, id: u128)
    ensures
        expiry_notices(rooms, Seq::empty()).len() == 0,
        expiry_notices(rooms, ids.push(id)) == expiry_notices(rooms, ids) + farewell(
            rooms[id],
            "{\"t\":\"sys\",\"e\":\"expired\"}"@,
        ),
{
    assert(ids.push(id).drop_last() =~= ids);
}

/// Activity resets one room's clock and changes nothing else.
pub proof fn law_activity_resets_one_clock(rooms: Map<u128, Room>, id: u128, now: u64, other: u128)
    ensures
        ({
            let after = rooms_touched(rooms, id, now);
            &&& after.contains_key(other) == rooms.contains_key(other)
            &&& rooms.contains_key(id) ==> after[id].last_activity == now && after[id].peers
                == rooms[id].peers
            &&& other != id && rooms.contains_key(other) ==> after[other] == rooms[other]
        }),
{
}

/// A join frame is a zero byte and then exactly 32 lowercase hexadecimal
/// digits; nothing else is one.
pub proof fn law_what_a_join_frame_is(frame: Seq<u8>)
    ensures
        room_asked(frame) is Some <==> frame.len() == 33 && frame[0] == 0 && forall|i: int|
            1 <= i < 33 ==> crate::text::hex_value(#[trigger] frame[i] as char) < 16,
{
    if frame.len() == 33 {
        let id = frame.skip(1);
        crate::kdf::law_what_a_room_id_is(id);
        if crate::kdf::valid_room_id(id) {
            assert forall|i: int| 1 <= i < 33 implies crate::text::hex_value(
                #[trigger] frame[i] as char,
            ) < 16 by {
                assert(frame[i] == id[i - 1]);
            }
        } else if forall|i: int|
            1 <= i < 33 ==> crate::text::hex_value(#[trigger] frame[i] as char) < 16 {
            assert forall|i: int| 0 <= i < 32 implies crate::text::hex_value(
                #[trigger] id[i] as char,
            ) < 16 by {
                assert(id[i] == frame[i + 1]);
            }
        }
    }
}

/// Only a join frame lets a connection in: no text, no keepalive and no silence
/// does.
pub proof fn law_only_a_join_frame_lets_in(first: Option<ClientMessage>)
    ensures
        first_message_asks(first) matches Some(id) ==> (first matches Some(
            ClientMessage::Binary(frame),
        ) && room_asked(frame@) == Some(id)),
        first matches Some(ClientMessage::Binary(frame)) ==> first_message_asks(first)
            == room_asked(frame@),
{
}

/// What is listed as expired are exactly the rooms in which nothing has
/// happened for ten minutes, each once.
pub proof fn law_what_expires(rooms: Map<u128, Room>, now: u64, ids: Seq<u128>, i: int, j: int)
    requires
        lists_expired(rooms, now, ids),
        0 <= i < j < ids.len(),
    ensures
        ids[i] != ids[j],
        rooms.contains_key(ids[i]) && now >= rooms[ids[i]].last_activity + 600_000_000_000,
        forall|id: u128|
            rooms.contains_key(id) && now >= (#[trigger] rooms[id]).last_activity + 600_000_000_000
                ==> ids.contains(id),
{
    assert(ids.contains(ids[i]));
}

/// Every delivery that is handed back is written, to the connection it names.
pub proof fn law_deliveries_are_written_in_turn(deliveries: Seq<Delivery>, i: int)
    requires
        0 <= i < deliveries.len(),
    ensures
        written(deliveries).len() == deliveries.len(),
        written(deliveries)[i].to == deliveries[i].to,
        match deliveries[i].out {
            Out::Sys(text) => written(deliveries)[i].out == OutView::Sys(text@),
            Out::Bin(bytes) => written(deliveries)[i].out == OutView::Bin(bytes@),
            Out::Close => written(deliveries)[i].out is Close,
        },
{
}

} // verus!
