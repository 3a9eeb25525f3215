//! The conversation: everything that is decided between the first connection
//! and the last word.
//!
//! A [`Chat`] owns the session and says what is to be done: what to tell the
//! user, what to write to the connection, when to reconnect and when it is
//! over. Connections, timers and windows are elsewhere; they report what
//! happened and do what they are told. Plaintext exists in exactly two places —
//! the running chat and the on-screen message list — and both are destroyed
//! together.

use vstd::prelude::*;
use crate::code;
use crate::encoding::{base64_decode, base64_encode};
use crate::error::Error as ProtoError;
use crate::files::{count_pieces, take_piece, Arrival, Incoming};
use crate::message;
use crate::session::{Event, Session};
use crate::ui::UiEvent;

verus! {

/// How many times a dropped connection is chased before giving up. Generous:
/// a phone that spent a while in the background may need several.
pub const MAX_RECONNECTS: u32 = 20;

/// How long before the idle time is over the user is warned of the silence, in
/// seconds. Nothing ends when it is over: only people end a chat.
pub const IDLE_WARNING: u64 = 60;

/// The idle time of a user who chose "never", in seconds: an effectively
/// unreachable deadline.
pub const NEVER: u64 = 0xffff_ffff;

/// Commands from the UI to the running chat.
pub enum Cmd {
    Send(String),
    /// A file to cut up and send. Held in memory only: it came from the user's
    /// own disk and never goes back to ours.
    SendFile { name: String, data: Vec<u8> },
    End,
}

/// A file that is being sent.
pub struct Outgoing {
    pub id: u64,
    pub name: String,
    pub data: Vec<u8>,
    pub total: u32,
    /// The piece that goes next.
    pub index: u32,
}

/// One connection to the other person.
pub struct Link {
    pub session: Session,
    /// Cleared on any traffic, so a warning shown once does not stay on screen
    /// after the conversation resumes.
    pub idle_warned: bool,
    pub files: Incoming,
    pub next_transfer_id: u64,
    pub outgoing: Option<Outgoing>,
}

/// A conversation with one other person.
pub struct Chat {
    nickname: String,
    idle: u64,
    reconnects: u32,
    link: Option<Link>,
}

/// What is left to send of a file.
pub struct OutgoingView {
    pub id: u64,
    pub name: Seq<char>,
    pub data: Seq<u8>,
    pub total: u32,
    pub index: u32,
}

/// What one connection holds.
pub struct LinkView {
    pub session: crate::session::SessionView,
    pub idle_warned: bool,
    pub files: Map<u64, crate::files::TransferView>,
    pub next_transfer_id: u64,
    pub outgoing: Option<OutgoingView>,
}

/// What a conversation holds.
pub struct ChatView {
    pub nickname: Seq<char>,
    pub idle: u64,
    pub reconnects: u32,
    pub link: Option<LinkView>,
}

impl View for Outgoing {
    type V = OutgoingView;

    open spec fn view(&self) -> OutgoingView {
        OutgoingView {
            id: self.id,
            name: self.name@,
            data: self.data@,
            total: self.total,
            index: self.index,
        }
    }
}

impl View for Link {
    type V = LinkView;

    open spec fn view(&self) -> LinkView {
        LinkView {
            session: self.session@,
            idle_warned: self.idle_warned,
            files: self.files@,
            next_transfer_id: self.next_transfer_id,
            outgoing: match self.outgoing {
                Some(o) => Some(o@),
                None => None,
            },
        }
    }
}

impl View for Chat {
    type V = ChatView;

    closed spec fn view(&self) -> ChatView {
        ChatView {
            nickname: self.nickname@,
            idle: self.idle,
            reconnects: self.reconnects,
            link: match self.link {
                Some(l) => Some(l@),
                None => None,
            },
        }
    }
}

/// What is to be done next.
#[derive(Debug)]
pub enum Next {
    /// Wait for the next thing to happen.
    Talk,
    /// Write this frame to the connection, then go on.
    Transmit(Vec<u8>),
    /// Send the pieces of a file, one after another.
    SendFile,
    /// Find the other person, at the same address as before.
    Connect,
    /// It is over, and this is what the user is told.
    End(String),
}

/// What is to be done: tell the user, then go on.
#[derive(Debug)]
pub struct Outcome {
    pub emit: Vec<UiEvent>,
    pub next: Next,
}

/// What is to be done next.
pub enum NextView {
    Talk,
    Transmit(Seq<u8>),
    SendFile,
    Connect,
    End(Seq<char>),
}

impl View for Next {
    type V = NextView;

    open spec fn view(&self) -> NextView {
        match *self {
            Next::Talk => NextView::Talk,
            Next::Transmit(f) => NextView::Transmit(f@),
            Next::SendFile => NextView::SendFile,
            Next::Connect => NextView::Connect,
            Next::End(why) => NextView::End(why@),
        }
    }
}

/// What a conversation becomes, and what is to be done.
pub struct Reaction {
    pub chat: ChatView,
    pub emit: Seq<crate::ui::UiEventView>,
    pub next: NextView,
}

/// Whether a conversation and an outcome are what a reaction says.
pub open spec fn follows(reaction: Reaction, chat: ChatView, outcome: Outcome) -> bool {
    &&& chat == reaction.chat
    &&& crate::ui::said(outcome.emit@) == reaction.emit
    &&& outcome.next@ == reaction.next
}

/// The event that calls an idle warning off.
pub open spec fn warning_cleared() -> crate::ui::UiEventView {
    crate::ui::UiEventView::IdleWarning { seconds_left: 0, active: false }
}

/// What a received file piece tells the user.
pub open spec fn piece_events(
    from: Seq<char>,
    name: Seq<char>,
    total: u32,
    came: crate::files::ArrivalView,
) -> Seq<crate::ui::UiEventView> {
    match came {
        crate::files::ArrivalView::Ignored => Seq::empty(),
        crate::files::ArrivalView::Partial { have } => seq![
            crate::ui::UiEventView::FileProgress {
                name,
                sent: have as u32,
                total,
                outgoing: false,
            },
        ],
        crate::files::ArrivalView::Complete { have, name: file, data } => seq![
            crate::ui::UiEventView::FileProgress {
                name,
                sent: have as u32,
                total,
                outgoing: false,
            },
            crate::ui::UiEventView::File { from, name: file, data: crate::encoding::base64(data) },
        ],
    }
}

/// What the user is told when a frame is refused.
pub open spec fn refusal_text(e: ProtoError) -> Seq<char> {
    match e {
        ProtoError::Decrypt => "Message failed verification — session ended for safety."@,
        ProtoError::OutOfOrder { .. } => "Message failed verification — session ended for safety."@,
        _ => crate::error::error_text(e),
    }
}

/// The number of pieces a file is announced with.
pub open spec fn announced_total(len: nat) -> u32 {
    if crate::files::piece_count(len) == 0 {
        1
    } else {
        crate::files::piece_count(len) as u32
    }
}

impl LinkView {
    /// A connection that has just been made.
    pub open spec fn fresh(session: crate::session::SessionView) -> LinkView {
        LinkView {
            session,
            idle_warned: false,
            files: Map::empty(),
            next_transfer_id: 0,
            outgoing: None,
        }
    }

    /// What traffic tells the user: that the warning is off, if there was one.
    pub open spec fn cleared(self) -> Seq<crate::ui::UiEventView> {
        if self.idle_warned {
            seq![warning_cleared()]
        } else {
            Seq::empty()
        }
    }

    /// Whether a file that is being sent is announced as what it is, and is not
    /// past its last piece.
    pub open spec fn wf(self) -> bool {
        self.outgoing matches Some(o) ==> {
            &&& crate::files::piece_count(o.data.len()) < u32::MAX
            &&& o.total == announced_total(o.data.len())
            &&& o.index <= crate::files::piece_count(o.data.len())
        }
    }
}

impl ChatView {
    /// The conversation goes on.
    pub open spec fn talking(
        self,
        link: LinkView,
        emit: Seq<crate::ui::UiEventView>,
        next: NextView,
    ) -> Reaction {
        Reaction { chat: ChatView { link: Some(link), ..self }, emit, next }
    }

    /// The conversation is over.
    pub open spec fn ended(self, emit: Seq<crate::ui::UiEventView>, why: Seq<char>) -> Reaction {
        Reaction { chat: ChatView { link: None, ..self }, emit, next: NextView::End(why) }
    }

    /// The connection dropped. It is chased, but not forever.
    pub open spec fn lost(self, why: Seq<char>) -> Reaction {
        let chat = ChatView { link: None, reconnects: (self.reconnects + 1) as u32, ..self };
        if self.reconnects + 1 > MAX_RECONNECTS {
            Reaction { chat, emit: Seq::empty(), next: NextView::End(why) }
        } else {
            Reaction {
                chat,
                emit: seq![crate::ui::UiEventView::Reconnecting],
                next: NextView::Connect,
            }
        }
    }

    /// The other person was found.
    pub open spec fn connected(self, session: crate::session::SessionView) -> Reaction {
        self.talking(
            LinkView::fresh(session),
            seq![
                if self.reconnects == 0 {
                    crate::ui::UiEventView::Ready
                } else {
                    crate::ui::UiEventView::Reconnected
                },
            ],
            NextView::Talk,
        )
    }

    /// The other person was not found. Failing to connect at all is the user's
    /// problem to see. Failing to get back is worth another try, since they were
    /// talking a moment ago.
    pub open spec fn connect_failed(self, why: Seq<char>) -> Reaction {
        let chat = ChatView { link: None, reconnects: (self.reconnects + 1) as u32, ..self };
        if self.reconnects == 0 {
            self.ended(Seq::empty(), why)
        } else if self.reconnects + 1 > MAX_RECONNECTS {
            Reaction {
                chat,
                emit: Seq::empty(),
                next: NextView::End("Lost the connection and could not get it back."@),
            }
        } else {
            Reaction { chat, emit: Seq::empty(), next: NextView::Connect }
        }
    }

    /// A frame arrived from the other person.
    pub open spec fn received(self, raw: Seq<u8>) -> Reaction {
        let link = self.link->0;
        let cleared = link.cleared();
        match link.session.accepted(raw) {
            Ok((session, crate::session::EventView::Message(m))) => {
                let after = LinkView { session, idle_warned: false, ..link };
                match crate::message::decoded(m) {
                    None => self.ended(cleared, "Received a malformed message."@),
                    Some(crate::message::IncomingView::Text { from, text }) => self.talking(
                        after,
                        cleared + seq![crate::ui::UiEventView::Message { from, text }],
                        NextView::Talk,
                    ),
                    Some(
                        crate::message::IncomingView::File { from, id, index, total, name, data },
                    ) => self.talking(
                        LinkView {
                            files: crate::files::after_piece(
                                link.files,
                                id,
                                index,
                                total,
                                name,
                                data,
                            ),
                            ..after
                        },
                        cleared + piece_events(
                            from,
                            name,
                            total,
                            crate::files::arrival(link.files, id, index, total, name, data),
                        ),
                        NextView::Talk,
                    ),
                }
            },
            Ok(_) => self.ended(cleared, "Unexpected handshake frame."@),
            // Any protocol error is terminal by design.
            Err(e) => self.ended(cleared, refusal_text(e)),
        }
    }

    /// The user typed a message.
    pub open spec fn typed(self, text: Seq<char>) -> Reaction {
        let link = self.link->0;
        let cleared = link.cleared();
        let bytes = crate::message::text_bytes(self.nickname, text);
        match link.session.encrypted(bytes) {
            Ok((session, frame)) => self.talking(
                LinkView { session, idle_warned: false, ..link },
                cleared,
                NextView::Transmit(frame),
            ),
            Err(ProtoError::TooLong) => self.talking(
                LinkView { idle_warned: false, ..link },
                cleared + seq![
                    crate::ui::UiEventView::Status { text: "Message too long."@, stage: "verify"@ },
                ],
                NextView::Talk,
            ),
            Err(e) => self.ended(cleared, crate::error::error_text(e)),
        }
    }

    /// The user picked a file.
    pub open spec fn picked(self, name: Seq<char>, data: Seq<u8>) -> Reaction {
        let link = self.link->0;
        self.talking(
            LinkView {
                idle_warned: false,
                next_transfer_id: if link.next_transfer_id == u64::MAX {
                    0
                } else {
                    (link.next_transfer_id + 1) as u64
                },
                outgoing: Some(
                    OutgoingView {
                        id: link.next_transfer_id,
                        name,
                        data,
                        total: announced_total(data.len()),
                        index: 0,
                    },
                ),
                ..link
            },
            link.cleared(),
            NextView::SendFile,
        )
    }

    /// The next piece of the file that is being sent. Each piece is an ordinary
    /// encrypted message, so a file gets exactly the protection everything else
    /// in the room gets.
    pub open spec fn next_piece(self) -> Reaction {
        let link = self.link->0;
        match link.outgoing {
            None => self.talking(link, Seq::empty(), NextView::Talk),
            Some(o) => if o.index >= crate::files::piece_count(o.data.len()) {
                self.talking(
                    LinkView { outgoing: None, ..link },
                    Seq::empty(),
                    NextView::Talk,
                )
            } else {
                match link.session.encrypted(
                    crate::message::chunk_bytes(
                        self.nickname,
                        o.id,
                        o.index,
                        o.total,
                        o.name,
                        crate::files::piece(o.data, o.index as nat),
                    ),
                ) {
                    Ok((session, frame)) => self.talking(
                        LinkView { session, ..link },
                        Seq::empty(),
                        NextView::Transmit(frame),
                    ),
                    Err(_) => self.lost("The other person disconnected."@),
                }
            },
        }
    }

    /// A piece of the file that is being sent was written to the connection.
    pub open spec fn piece_sent(self) -> Reaction {
        let link = self.link->0;
        let o = link.outgoing->0;
        self.talking(
            LinkView {
                outgoing: Some(OutgoingView { index: (o.index + 1) as u32, ..o }),
                ..link
            },
            seq![
                crate::ui::UiEventView::FileProgress {
                    name: o.name,
                    sent: (o.index + 1) as u32,
                    total: o.total,
                    outgoing: true,
                },
            ],
            NextView::SendFile,
        )
    }

    /// Nothing was said for so long that the user is warned.
    pub open spec fn warned(self) -> Reaction {
        self.talking(
            LinkView { idle_warned: true, ..self.link->0 },
            seq![
                crate::ui::UiEventView::IdleWarning {
                    seconds_left: IDLE_WARNING as u32,
                    active: true,
                },
            ],
            NextView::Talk,
        )
    }

    /// After how many seconds of silence the user is warned.
    pub open spec fn warn_after(self) -> nat {
        if self.idle >= IDLE_WARNING {
            (self.idle - IDLE_WARNING) as nat
        } else {
            0
        }
    }

    /// How many seconds of silence are left until the user is warned of it. After
    /// that there is nothing more to wait for.
    pub open spec fn next_wait(self) -> Option<u64> {
        if self.link matches Some(l) && l.idle_warned {
            None
        } else {
            Some(self.warn_after() as u64)
        }
    }

    /// Nothing was said for long. The user is warned of it, once, and the room
    /// stays open: two people leaving it open between messages is the normal way
    /// to use this.
    pub open spec fn waited(self) -> Reaction {
        if self.link matches Some(l) && l.idle_warned {
            self.talking(self.link->0, Seq::empty(), NextView::Talk)
        } else {
            self.warned()
        }
    }

    /// Whether the conversation is in a state that it can be in: it has not been
    /// chased too often, and what is being sent is a file.
    pub open spec fn wf(self) -> bool {
        &&& self.reconnects <= MAX_RECONNECTS + 1
        &&& self.link matches Some(l) ==> l.wf()
    }

    /// Whether there is a connection, on which messages can still be counted.
    pub open spec fn is_linked(self) -> bool {
        self.link matches Some(l) && l.session.has_room()
    }
}

/// The event that calls an idle warning off, where there was one.
fn clear_warning(link: &mut Link) -> (emit: Vec<UiEvent>)
    ensures
        crate::ui::said(emit@) == old(link)@.cleared(),
        final(link)@ == (LinkView { idle_warned: false, ..old(link)@ }),
{
    let mut emit: Vec<UiEvent> = Vec::new();
    if link.idle_warned {
        link.idle_warned = false;
        emit.push(UiEvent::IdleWarning { seconds_left: 0, active: false });
    }
    assert(crate::ui::said(emit@) =~= old(link)@.cleared());
    emit
}

proof fn lemma_said_push(events: Seq<UiEvent>, e: UiEvent)
    ensures
        crate::ui::said(events.push(e)) == crate::ui::said(events).push(e@),
{
    assert(crate::ui::said(events.push(e)) =~= crate::ui::said(events).push(e@));
}

/// What the user is told when a frame is refused.
fn refusal(e: ProtoError) -> (text: String)
    ensures
        text@ == refusal_text(e),
{
    match e {
        ProtoError::Decrypt => "Message failed verification — session ended for safety.".to_owned(),
        ProtoError::OutOfOrder { .. } =>
        "Message failed verification — session ended for safety.".to_owned(),
        e => e.to_string(),
    }
}

impl Chat {
    /// A conversation that is about to begin. `idle_secs` is the length of
    /// silence that the user wants to hear of before it is over; zero means that
    /// they chose "never".
    pub fn new(nickname: String, idle_secs: u64) -> (chat: Self)
        ensures
            chat@ == (ChatView {
                nickname: nickname@,
                idle: if idle_secs == 0 {
                    NEVER
                } else {
                    idle_secs
                },
                reconnects: 0,
                link: None,
            }),
            chat@.wf(),
    {
        let idle: u64 = if idle_secs == 0 {
            NEVER
        } else {
            idle_secs
        };
        Chat { nickname, idle, reconnects: 0, link: None }
    }

    /// How many seconds of silence are left until [`Chat::on_waited`] is due, if
    /// it is due at all. Anything that is said starts the time anew.
    pub fn next_wait(&self) -> (secs: Option<u64>)
        ensures
            secs == self@.next_wait(),
    {
        let warned: bool = match &self.link {
            Some(link) => link.idle_warned,
            None => false,
        };
        if warned {
            None
        } else {
            Some(self.idle.saturating_sub(IDLE_WARNING))
        }
    }

    /// Whether there is a connection, on which messages can still be counted.
    pub fn is_linked(&self) -> (linked: bool)
        ensures
            linked == self@.is_linked(),
    {
        match &self.link {
            Some(link) => link.session.has_room(),
            None => false,
        }
    }

    /// The other person was found, and the handshake was confirmed.
    pub fn on_connected(&mut self, session: Session) -> (outcome: Outcome)
        ensures
            follows(old(self)@.connected(session@), final(self)@, outcome),
            old(self)@.wf() ==> final(self)@.wf(),
    {
        let mut emit: Vec<UiEvent> = Vec::new();
        if self.reconnects == 0 {
            emit.push(UiEvent::Ready);
        } else {
            emit.push(UiEvent::Reconnected);
        }
        self.link = Some(
            Link {
                session,
                idle_warned: false,
                files: Incoming::new(),
                next_transfer_id: 0,
                outgoing: None,
            },
        );
        assert(crate::ui::said(emit@) =~= old(self)@.connected(session@).emit);
        Outcome { emit, next: Next::Talk }
    }

    /// The other person was not found, for the reason given.
    pub fn on_connect_failed(&mut self, why: String) -> (outcome: Outcome)
        requires
            old(self)@.wf(),
        ensures
            follows(old(self)@.connect_failed(why@), final(self)@, outcome),
            outcome.next@ is Connect ==> final(self)@.wf(),
    {
        let emit: Vec<UiEvent> = Vec::new();
        assert(crate::ui::said(emit@) =~= Seq::empty());
        self.link = None;
        if self.reconnects == 0 {
            return Outcome { emit, next: Next::End(why) };
        }
        self.reconnects = self.reconnects + 1;
        if self.reconnects > MAX_RECONNECTS {
            Outcome {
                emit,
                next: Next::End("Lost the connection and could not get it back.".to_owned()),
            }
        } else {
            Outcome { emit, next: Next::Connect }
        }
    }

    /// The user gave up while the other person was being looked for.
    ///
    /// Cancel has to work here, not just once the chat is up: finding the other
    /// person is where a user actually gives up.
    pub fn on_cancelled(&mut self) -> (outcome: Outcome)
        ensures
            follows(
                old(self)@.ended(Seq::empty(), "You cancelled."@),
                final(self)@,
                outcome,
            ),
    {
        let emit: Vec<UiEvent> = Vec::new();
        assert(crate::ui::said(emit@) =~= Seq::empty());
        self.finish(emit, "You cancelled.".to_owned())
    }

    /// The connection dropped: the other side closed it, or nothing more can be
    /// written to it.
    ///
    /// A phone suspends a backgrounded app and closes its sockets, so switching
    /// apps for a moment would otherwise end the conversation. A fresh handshake
    /// runs each time, with new ephemerals and new session keys: it is a new
    /// session at the same address, not a resumed one.
    pub fn on_disconnected(&mut self) -> (outcome: Outcome)
        requires
            old(self)@.wf(),
        ensures
            follows(
                old(self)@.lost("The other person disconnected."@),
                final(self)@,
                outcome,
            ),
            outcome.next@ is Connect ==> final(self)@.wf(),
    {
        // Dropping the session erases every key.
        self.link = None;
        self.reconnects = self.reconnects + 1;
        let mut emit: Vec<UiEvent> = Vec::new();
        if self.reconnects > MAX_RECONNECTS {
            assert(crate::ui::said(emit@) =~= Seq::empty());
            Outcome { emit, next: Next::End("The other person disconnected.".to_owned()) }
        } else {
            emit.push(UiEvent::Reconnecting);
            assert(crate::ui::said(emit@) =~= seq![crate::ui::UiEventView::Reconnecting]);
            Outcome { emit, next: Next::Connect }
        }
    }

    fn finish(&mut self, emit: Vec<UiEvent>, why: String) -> (outcome: Outcome)
        ensures
            follows(old(self)@.ended(crate::ui::said(emit@), why@), final(self)@, outcome),
    {
        self.link = None;
        Outcome { emit, next: Next::End(why) }
    }

    /// A frame arrived from the other person.
    pub fn on_frame(&mut self, raw: &[u8]) -> (outcome: Outcome)
        requires
            old(self)@.is_linked(),
            old(self)@.link->0.session.can_read(raw@),
        ensures
            follows(old(self)@.received(raw@), final(self)@, outcome),
            old(self)@.wf() ==> final(self)@.wf(),
    {
        let ghost before = self@;
        let mut link: Link = match self.link.take() {
            Some(link) => link,
            None => {
                return Outcome { emit: Vec::new(), next: Next::Talk };
            },
        };
        let ghost held = link@;
        let mut emit: Vec<UiEvent> = clear_warning(&mut link);
        match link.session.handle(raw) {
            Ok(Event::Message(m)) => match message::decode(m.as_slice()) {
                None => self.finish(emit, "Received a malformed message.".to_owned()),
                Some(message::Incoming::Text { from, text }) => {
                    let event: UiEvent = UiEvent::Message { from, text };
                    proof {
                        lemma_said_push(emit@, event);
                    }
                    emit.push(event);
                    self.link = Some(link);
                    assert(crate::ui::said(emit@) =~= before.received(raw@).emit);
                    Outcome { emit, next: Next::Talk }
                },
                Some(message::Incoming::File { from, id, index, total, name, data }) => {
                    proof {
                        crate::message::law_decoding_bounds_what_a_peer_can_claim(m@);
                    }
                    let came: Arrival = link.files.receive(id, index, total, name.as_str(), data);
                    match came {
                        Arrival::Ignored => {},
                        Arrival::Partial { have } => {
                            emit.push(
                                UiEvent::FileProgress { name, sent: have, total, outgoing: false },
                            );
                        },
                        Arrival::Complete { have, name: file, data } => {
                            emit.push(
                                UiEvent::FileProgress { name, sent: have, total, outgoing: false },
                            );
                            emit.push(
                                UiEvent::File {
                                    from,
                                    name: file,
                                    data: base64_encode(data.as_slice()),
                                },
                            );
                        },
                    }
                    self.link = Some(link);
                    assert(crate::ui::said(emit@) =~= before.received(raw@).emit);
                    Outcome { emit, next: Next::Talk }
                },
            },
            Ok(_) => self.finish(emit, "Unexpected handshake frame.".to_owned()),
            Err(e) => self.finish(emit, refusal(e)),
        }
    }

    /// The user typed a message.
    pub fn on_send(&mut self, text: &str) -> (outcome: Outcome)
        requires
            old(self)@.is_linked(),
        ensures
            follows(old(self)@.typed(text@), final(self)@, outcome),
            outcome.next matches Next::Transmit(f) ==> crate::session::carries(
                old(self)@.link->0.session.tx->0,
                f@,
                crate::message::text_bytes(old(self)@.nickname, text@),
            ),
            old(self)@.wf() ==> final(self)@.wf(),
    {
        let ghost before = self@;
        let mut link: Link = match self.link.take() {
            Some(link) => link,
            None => {
                return Outcome { emit: Vec::new(), next: Next::Talk };
            },
        };
        let mut emit: Vec<UiEvent> = clear_warning(&mut link);
        let bytes: Vec<u8> = message::encode_text(self.nickname.as_str(), text);
        match link.session.encrypt(bytes.as_slice()) {
            Ok(frame) => {
                self.link = Some(link);
                Outcome { emit, next: Next::Transmit(frame) }
            },
            Err(ProtoError::TooLong) => {
                emit.push(
                    UiEvent::Status {
                        text: "Message too long.".to_owned(),
                        stage: "verify".to_owned(),
                    },
                );
                self.link = Some(link);
                assert(crate::ui::said(emit@) =~= before.typed(text@).emit);
                Outcome { emit, next: Next::Talk }
            },
            Err(e) => self.finish(emit, e.to_string()),
        }
    }

    /// The user picked a file. Its pieces are sent one after another: ask for
    /// each with [`Chat::next_piece`] and report it with [`Chat::on_piece_sent`].
    pub fn on_send_file(&mut self, name: String, data: Vec<u8>) -> (outcome: Outcome)
        requires
            old(self)@.is_linked(),
            crate::files::piece_count(data@.len()) < u32::MAX,
        ensures
            follows(old(self)@.picked(name@, data@), final(self)@, outcome),
            data@.len() > 0 ==> (final(self)@.link->0.outgoing matches Some(o) && o.total
                == crate::files::piece_count(data@.len()) && o.index == 0 && o.data == data@
                && o.name == name@),
            old(self)@.wf() ==> final(self)@.wf(),
    {
        let mut link: Link = match self.link.take() {
            Some(link) => link,
            None => {
                return Outcome { emit: Vec::new(), next: Next::Talk };
            },
        };
        let emit: Vec<UiEvent> = clear_warning(&mut link);
        let count: u64 = count_pieces(data.as_slice());
        let total: u32 = if count == 0 {
            1
        } else {
            count as u32
        };
        let id: u64 = link.next_transfer_id;
        link.next_transfer_id = id.wrapping_add(1);
        link.outgoing = Some(Outgoing { id, name, data, total, index: 0 });
        self.link = Some(link);
        Outcome { emit, next: Next::SendFile }
    }

    /// Encrypt the next piece of the file that is being sent. After the last one
    /// the conversation goes on.
    pub fn next_piece(&mut self) -> (outcome: Outcome)
        requires
            old(self)@.is_linked(),
            old(self)@.wf(),
        ensures
            follows(old(self)@.next_piece(), final(self)@, outcome),
            outcome.next matches Next::Transmit(f) ==> old(self)@.link->0.outgoing matches Some(o)
                && crate::session::carries(
                old(self)@.link->0.session.tx->0,
                f@,
                crate::message::chunk_bytes(
                    old(self)@.nickname,
                    o.id,
                    o.index,
                    o.total,
                    o.name,
                    crate::files::piece(o.data, o.index as nat),
                ),
            ),
            !(outcome.next@ is End) ==> final(self)@.wf(),
    {
        let emit: Vec<UiEvent> = Vec::new();
        assert(crate::ui::said(emit@) =~= Seq::empty());
        let mut link: Link = match self.link.take() {
            Some(link) => link,
            None => {
                return Outcome { emit, next: Next::Talk };
            },
        };
        let mut sealed: Option<Result<Vec<u8>, ProtoError>> = None;
        if let Some(o) = &link.outgoing {
            if (o.index as u64) < count_pieces(o.data.as_slice()) {
                let piece: Vec<u8> = take_piece(o.data.as_slice(), o.index);
                proof {
                    crate::message::law_a_full_chunk_fits_in_one_message(
                        self.nickname@,
                        o.id,
                        o.index,
                        o.total,
                        o.name@,
                        piece@,
                    );
                }
                let msg: Vec<u8> = message::encode_file_chunk(
                    self.nickname.as_str(),
                    o.id,
                    o.index,
                    o.total,
                    o.name.as_str(),
                    piece.as_slice(),
                );
                sealed = Some(link.session.encrypt(msg.as_slice()));
            }
        }
        match sealed {
            None => {
                link.outgoing = None;
                self.link = Some(link);
                Outcome { emit, next: Next::Talk }
            },
            Some(Ok(frame)) => {
                self.link = Some(link);
                Outcome { emit, next: Next::Transmit(frame) }
            },
            Some(Err(_)) => self.on_disconnected(),
        }
    }

    /// A piece of the file that is being sent was written to the connection.
    pub fn on_piece_sent(&mut self) -> (outcome: Outcome)
        requires
            old(self)@.wf(),
            old(self)@.link matches Some(l) && l.outgoing matches Some(o) && o.index
                < crate::files::piece_count(o.data.len()),
        ensures
            follows(old(self)@.piece_sent(), final(self)@, outcome),
            final(self)@.wf(),
    {
        let ghost before = self@;
        let mut emit: Vec<UiEvent> = Vec::new();
        if let Some(mut link) = self.link.take() {
            if let Some(mut o) = link.outgoing.take() {
                o.index = o.index + 1;
                emit.push(
                    UiEvent::FileProgress {
                        name: o.name.clone(),
                        sent: o.index,
                        total: o.total,
                        outgoing: true,
                    },
                );
                link.outgoing = Some(o);
            }
            self.link = Some(link);
        }
        assert(crate::ui::said(emit@) =~= before.piece_sent().emit);
        Outcome { emit, next: Next::SendFile }
    }

    /// The user ended the session.
    pub fn on_end(&mut self) -> (outcome: Outcome)
        ensures
            follows(
                old(self)@.ended(Seq::empty(), "You ended the session."@),
                final(self)@,
                outcome,
            ),
    {
        let emit: Vec<UiEvent> = Vec::new();
        assert(crate::ui::said(emit@) =~= Seq::empty());
        self.finish(emit, "You ended the session.".to_owned())
    }

    /// No more commands will come.
    pub fn on_closed(&mut self) -> (outcome: Outcome)
        ensures
            follows(old(self)@.ended(Seq::empty(), "Session closed."@), final(self)@, outcome),
    {
        let emit: Vec<UiEvent> = Vec::new();
        assert(crate::ui::said(emit@) =~= Seq::empty());
        self.finish(emit, "Session closed.".to_owned())
    }

    /// Nothing was said for [`Chat::next_wait`]. The user is warned, once;
    /// silence never closes a chat.
    pub fn on_waited(&mut self) -> (outcome: Outcome)
        requires
            old(self)@.link is Some,
        ensures
            follows(old(self)@.waited(), final(self)@, outcome),
            !(outcome.next@ is End),
            final(self)@.link matches Some(l) && l.session == old(self)@.link->0.session,
            old(self)@.wf() ==> final(self)@.wf(),
    {
        let ghost before = self@;
        let mut emit: Vec<UiEvent> = Vec::new();
        if let Some(mut link) = self.link.take() {
            if !link.idle_warned {
                link.idle_warned = true;
                emit.push(
                    UiEvent::IdleWarning { seconds_left: IDLE_WARNING as u32, active: true },
                );
            }
            self.link = Some(link);
        }
        assert(crate::ui::said(emit@) =~= before.waited().emit);
        Outcome { emit, next: Next::Talk }
    }
}

/// Whether `r` says what a verdict on a code says, in words.
pub open spec fn announces(r: Result<(), String>, verdict: Result<(), ProtoError>) -> bool {
    match (r, verdict) {
        (Ok(_), Ok(_)) => true,
        (Err(text), Err(e)) => text@ == crate::error::error_text(e),
        _ => false,
    }
}

/// Validate a code without connecting, so the UI can complain immediately.
pub fn check_code(raw: &str) -> (r: Result<(), String>)
    ensures
        announces(
            r,
            code::verdict(code::normalized(raw@), code::lowercase(code::normalized(raw@))),
        ),
        raw.is_ascii() ==> announces(
            r,
            code::verdict(
                crate::text::trimmed(raw@),
                crate::text::ascii_lowercase(crate::text::trimmed(raw@)),
            ),
        ),
{
    let normal: String = code::normalize(raw);
    proof {
        if raw.is_ascii() {
            crate::text::lemma_trimmed_is_ascii(raw@);
        }
    }
    match code::validate(normal.as_str()) {
        Ok(()) => Ok(()),
        Err(e) => Err(e.to_string()),
    }
}

/// Read a file the user picked. `data` is base64, because that is what the
/// webview can hand across.
pub fn read_picked_file(data: &str) -> (r: Result<Vec<u8>, String>)
    ensures
        match r {
            Ok(file) => {
                &&& file@.len() > 0
                &&& data@ == crate::encoding::base64(file@)
            },
            Err(text) => if data@.len() == 0 {
                text@ == "that file is empty"@
            } else {
                &&& text@ == "could not read that file"@
                &&& forall|file: Seq<u8>| #[trigger] crate::encoding::base64(file) != data@
            },
        },
{
    match base64_decode(data) {
        None => {
            assert(data@.len() > 0) by {
                assert(crate::encoding::base64(Seq::empty()) =~= Seq::empty());
                assert(data@.len() == 0 ==> data@ =~= Seq::empty());
            }
            Err("could not read that file".to_owned())
        },
        Some(bytes) => if bytes.len() == 0 {
            Err("that file is empty".to_owned())
        } else {
            Ok(bytes)
        },
    }
}

/// The one place for a running session. There is at most one at a time.
pub struct SessionSlot {
    /// The session that is running.
    pub current: Option<u64>,
    /// How many sessions there have been.
    pub started: u64,
}

impl SessionSlot {
    /// No session is running.
    pub fn new() -> (slot: Self)
        ensures
            slot.current is None,
            slot.started == 0,
            slot.wf(),
    {
        SessionSlot { current: None, started: 0 }
    }

    /// Whether the running session is one that was started.
    pub open spec fn wf(self) -> bool {
        self.current matches Some(id) ==> id < self.started
    }

    /// Begin a session, unless one is already running.
    pub fn begin(&mut self) -> (r: Result<u64, String>)
        requires
            old(self).wf(),
            old(self).started < u64::MAX,
        ensures
            final(self).wf(),
            match r {
                Ok(id) => {
                    &&& old(self).current is None
                    &&& id == old(self).started
                    &&& final(self).current == Some(id)
                    &&& final(self).started == old(self).started + 1
                },
                Err(text) => {
                    &&& old(self).current is Some
                    &&& *final(self) == *old(self)
                    &&& text@ == "a session is already running"@
                },
            },
    {
        if self.current.is_some() {
            return Err("a session is already running".to_owned());
        }
        let id: u64 = self.started;
        self.current = Some(id);
        self.started = id + 1;
        Ok(id)
    }

    /// The user ended the running session. Its place is free at once.
    pub fn take(&mut self) -> (ended: Option<u64>)
        ensures
            ended == old(self).current,
            final(self).current is None,
            final(self).started == old(self).started,
    {
        let ended: Option<u64> = self.current;
        self.current = None;
        ended
    }

    /// A session is over. Its place is freed only if it still holds it: a later
    /// session may have been admitted in the meantime, and clearing its place
    /// would leave it running with nothing able to stop it.
    pub fn finish(&mut self, id: u64)
        ensures
            final(self).started == old(self).started,
            final(self).current == (if old(self).current == Some(id) {
                None
            } else {
                old(self).current
            }),
    {
        if let Some(current) = self.current {
            if current == id {
                self.current = None;
            }
        }
    }
}

/// Any frame that the protocol refuses ends the conversation for good: it is
/// not chased, and no session is left.
pub proof fn law_protocol_errors_end_the_chat(chat: ChatView, raw: Seq<u8>)
    requires
        chat.link is Some,
        chat.link->0.session.accepted(raw) is Err,
    ensures
        chat.received(raw).next is End,
        chat.received(raw).chat.link is None,
{
}

/// However the conversation ends — by the user, with the channel, on a refused
/// frame or with the connection — no session outlives it.
pub proof fn law_no_session_outlives_the_chat(
    chat: ChatView,
    raw: Seq<u8>,
    text: Seq<char>,
    emit: Seq<crate::ui::UiEventView>,
    why: Seq<char>,
)
    requires
        chat.link is Some,
    ensures
        chat.ended(emit, why).next is End,
        chat.ended(emit, why).chat.link is None,
        chat.received(raw).next is End ==> chat.received(raw).chat.link is None,
        chat.typed(text).next is End ==> chat.typed(text).chat.link is None,
        chat.next_piece().next is End ==> chat.next_piece().chat.link is None,
        chat.lost(why).chat.link is None,
        chat.connect_failed(why).chat.link is None,
{
}

/// A dropped connection is chased at most [`MAX_RECONNECTS`] times: every time
/// it drops, or cannot be made again, the count goes up, and at the limit the
/// conversation ends.
pub proof fn law_reconnecting_is_bounded(chat: ChatView, why: Seq<char>)
    requires
        chat.wf(),
    ensures
        chat.lost(why).next is Connect ==> chat.reconnects < MAX_RECONNECTS
            && chat.lost(why).chat.reconnects == chat.reconnects + 1,
        chat.connect_failed(why).next is Connect ==> 0 < chat.reconnects < MAX_RECONNECTS
            && chat.connect_failed(why).chat.reconnects == chat.reconnects + 1,
        chat.reconnects >= MAX_RECONNECTS ==> chat.lost(why).next is End,
{
}

/// Failing to connect the first time is shown to the user as it is, and not
/// tried again.
pub proof fn law_first_failure_is_shown(chat: ChatView, why: Seq<char>)
    requires
        chat.reconnects == 0,
    ensures
        chat.connect_failed(why).next == NextView::End(why),
{
}

/// Silence never ends a chat, however long it lasts: the room stays open, with
/// its session as it was. The user is warned of it once.
pub proof fn law_silence_never_ends_a_chat(chat: ChatView)
    requires
        chat.link is Some,
    ensures
        ({
            let after = chat.waited();
            &&& after.next is Talk
            &&& after.chat.link is Some
            &&& after.chat.link->0.session == chat.link->0.session
            &&& after.chat.next_wait() is None
            &&& after.chat.waited().next is Talk
            &&& after.chat.waited().emit.len() == 0
            &&& after.chat.waited().chat == after.chat
        }),
{
    let after = chat.waited().chat;
    assert(after.waited().chat == after);
}

/// Whatever is said calls the warning of silence off, and starts the time to
/// the next one anew.
pub proof fn law_traffic_ends_the_silence(
    chat: ChatView,
    raw: Seq<u8>,
    text: Seq<char>,
    name: Seq<char>,
    data: Seq<u8>,
)
    requires
        chat.link is Some,
    ensures
        chat.received(raw).next is Talk ==> chat.received(raw).chat.next_wait() == Some(
            chat.warn_after() as u64,
        ),
        chat.typed(text).chat.link is Some ==> chat.typed(text).chat.next_wait() == Some(
            chat.warn_after() as u64,
        ),
        chat.picked(name, data).chat.next_wait() == Some(chat.warn_after() as u64),
        chat.link->0.idle_warned ==> {
            &&& chat.received(raw).emit.len() > 0 && chat.received(raw).emit[0] == warning_cleared()
            &&& chat.typed(text).emit.len() > 0 && chat.typed(text).emit[0] == warning_cleared()
            &&& chat.picked(name, data).emit == seq![warning_cleared()]
        },
{
}

/// What ends a chat that is up, apart from the user's own end command and the
/// closing of the channel it comes through: a frame that is refused or
/// malformed, a message that cannot be sent for another reason than its length,
/// and a connection that is lost too often. Nothing else does.
pub proof fn law_what_ends_a_chat(
    chat: ChatView,
    session: crate::session::SessionView,
    raw: Seq<u8>,
    text: Seq<char>,
    name: Seq<char>,
    data: Seq<u8>,
    why: Seq<char>,
)
    requires
        chat.link is Some,
    ensures
        !(chat.waited().next is End),
        !(chat.picked(name, data).next is End),
        !(chat.piece_sent().next is End),
        !(chat.connected(session).next is End),
        chat.received(raw).next is End <==> !(chat.link->0.session.accepted(raw) matches Ok(
            (_, crate::session::EventView::Message(m)),
        ) && crate::message::decoded(m) is Some),
        chat.typed(text).next is End <==> (chat.link->0.session.encrypted(
            crate::message::text_bytes(chat.nickname, text),
        ) matches Err(e) && e != ProtoError::TooLong),
        chat.next_piece().next is End ==> chat.reconnects >= MAX_RECONNECTS,
        chat.lost(why).next is End <==> chat.reconnects >= MAX_RECONNECTS,
        chat.connect_failed(why).next is End <==> chat.reconnects == 0 || chat.reconnects
            >= MAX_RECONNECTS,
{
}

/// A frame that carries a message of the direction a ready session receives on
/// is accepted as that message.
proof fn lemma_carried_is_accepted(
    s: crate::session::SessionView,
    raw: Seq<u8>,
    m: Seq<u8>,
)
    requires
        s.phase == crate::session::Phase::Ready,
        s.rx is Some,
        crate::session::carries(s.rx->0, raw, m),
    ensures
        s.accepted(raw) == Ok::<(crate::session::SessionView, crate::session::EventView), ProtoError>(
            (
                crate::session::SessionView { rx: Some(s.rx->0.ratcheted()), ..s },
                crate::session::EventView::Message(m),
            ),
        ),
{
    crate::frame::law_padding_round_trips(m);
}

/// What one person types, the other is shown: a frame that carries the typed
/// message, given to a conversation that receives on the direction it was sent
/// on, tells the user the text, under the sender's name.
pub proof fn law_what_is_typed_is_shown(
    chat: ChatView,
    raw: Seq<u8>,
    nickname: Seq<char>,
    text: Seq<char>,
)
    requires
        chat.link is Some,
        chat.link->0.session.phase == crate::session::Phase::Ready,
        chat.link->0.session.rx is Some,
        crate::session::carries(
            chat.link->0.session.rx->0,
            raw,
            crate::message::text_bytes(nickname, text),
        ),
    ensures
        chat.received(raw).next is Talk,
        chat.received(raw).emit == chat.link->0.cleared() + seq![
            crate::ui::UiEventView::Message {
                from: crate::message::honest(
                    crate::text::cut(nickname, crate::message::MAX_NAME as nat),
                ),
                text,
            },
        ],
{
    let m = crate::message::text_bytes(nickname, text);
    lemma_carried_is_accepted(chat.link->0.session, raw, m);
    crate::message::law_text_round_trips(nickname, text);
}

/// What one person sends of a file, the other receives: a frame that carries a
/// piece puts exactly that piece into the transfer it belongs to.
#[verifier::rlimit(60)]
pub proof fn law_pieces_sent_are_received(
    chat: ChatView,
    raw: Seq<u8>,
    nickname: Seq<char>,
    id: u64,
    index: u32,
    total: u32,
    name: Seq<char>,
    data: Seq<u8>,
)
    requires
        chat.link is Some,
        chat.link->0.session.phase == crate::session::Phase::Ready,
        chat.link->0.session.rx is Some,
        0 < total <= crate::message::MAX_CHUNKS,
        index < total,
        data.len() <= crate::message::CHUNK,
        crate::session::carries(
            chat.link->0.session.rx->0,
            raw,
            crate::message::chunk_bytes(nickname, id, index, total, name, data),
        ),
    ensures
        ({
            let shown = crate::message::sanitized(
                crate::text::cut(name, crate::message::MAX_FILENAME as nat),
            );
            let link = chat.link->0;
            let after = chat.received(raw);
            &&& after.next is Talk
            &&& after.chat.link->0.files == crate::files::after_piece(
                link.files,
                id,
                index,
                total,
                shown,
                data,
            )
            &&& after.emit == link.cleared() + piece_events(
                crate::message::honest(
                    crate::text::cut(nickname, crate::message::MAX_NAME as nat),
                ),
                shown,
                total,
                crate::files::arrival(link.files, id, index, total, shown, data),
            )
        }),
{
    let m = crate::message::chunk_bytes(nickname, id, index, total, name, data);
    lemma_carried_is_accepted(chat.link->0.session, raw, m);
    crate::message::law_file_chunks_round_trip(nickname, id, index, total, name, data);
}

/// The conversation after hearing some frames, one after another.
pub open spec fn after_hearing(chat: ChatView, frames: Seq<Seq<u8>>) -> ChatView
    decreases frames.len(),
{
    if frames.len() == 0 {
        chat
    } else {
        after_hearing(chat, frames.drop_last()).received(frames.last()).chat
    }
}

/// Whether frames carry all pieces of a file, one after another, on a direction
/// that stands at `dir`.
pub open spec fn carry_file(
    dir: crate::session::DirView,
    frames: Seq<Seq<u8>>,
    nickname: Seq<char>,
    id: u64,
    name: Seq<char>,
    data: Seq<u8>,
) -> bool {
    let total = crate::files::piece_count(data.len());
    &&& frames.len() == total
    &&& forall|i: int|
        0 <= i < total ==> crate::session::carries(
            crate::session::DirView {
                key: crate::session::nth_key(dir.key, i as nat),
                ctr: (dir.ctr + i) as u64,
            },
            #[trigger] frames[i],
            crate::message::chunk_bytes(
                nickname,
                id,
                i as u32,
                total as u32,
                name,
                crate::files::piece(data, i as nat),
            ),
        )
}

#[verifier::rlimit(60)]
proof fn lemma_file_is_heard(
    chat: ChatView,
    frames: Seq<Seq<u8>>,
    nickname: Seq<char>,
    id: u64,
    name: Seq<char>,
    data: Seq<u8>,
    k: nat,
)
    requires
        chat.link is Some,
        chat.link->0.session.phase == crate::session::Phase::Ready,
        chat.link->0.session.rx is Some,
        !chat.link->0.files.contains_key(id),
        0 < crate::files::piece_count(data.len()) <= crate::message::MAX_CHUNKS,
        chat.link->0.session.rx->0.ctr + frames.len() <= u64::MAX,
        carry_file(chat.link->0.session.rx->0, frames, nickname, id, name, data),
        k <= frames.len(),
    ensures
        ({
            let total = crate::files::piece_count(data.len());
            let shown = crate::message::sanitized(
                crate::text::cut(name, crate::message::MAX_FILENAME as nat),
            );
            let first = chat.link->0.session.rx->0;
            let now = after_hearing(chat, frames.take(k as int));
            &&& now.link is Some
            &&& now.nickname == chat.nickname && now.reconnects == chat.reconnects
            &&& now.link->0.session.phase == crate::session::Phase::Ready
            &&& now.link->0.session.rx == Some(
                crate::session::DirView {
                    key: crate::session::nth_key(first.key, k),
                    ctr: (first.ctr + k) as u64,
                },
            )
            &&& k > 0 ==> !now.link->0.idle_warned
            &&& k == 0 ==> now == chat
            &&& now.link->0.files == (if k == 0 || k == total {
                chat.link->0.files
            } else {
                chat.link->0.files.insert(id, crate::files::begun(shown, data, k))
            })
        }),
    decreases k,
{
    if k == 0 {
        assert(frames.take(0) =~= Seq::<Seq<u8>>::empty());
    } else {
        let m = (k - 1) as nat;
        lemma_file_is_heard(chat, frames, nickname, id, name, data, m);
        let total = crate::files::piece_count(data.len());
        let shown = crate::message::sanitized(
            crate::text::cut(name, crate::message::MAX_FILENAME as nat),
        );
        let now = after_hearing(chat, frames.take(m as int));
        let raw = frames[m as int];
        let part = crate::files::piece(data, m);
        assert(frames.take(k as int).drop_last() =~= frames.take(m as int));
        assert(frames.take(k as int).last() == raw);
        crate::files::law_pieces_are_never_empty(data, m);
        law_pieces_sent_are_received(now, raw, nickname, id, m as u32, total as u32, name, part);
        lemma_carried_is_accepted(
            now.link->0.session,
            raw,
            crate::message::chunk_bytes(nickname, id, m as u32, total as u32, name, part),
        );
        crate::message::law_file_chunks_round_trip(
            nickname,
            id,
            m as u32,
            total as u32,
            name,
            part,
        );
        crate::session::law_every_message_moves_the_key_on(
            now.link->0.session,
            raw,
            Seq::empty(),
        );
        crate::files::law_pieces_in_order_make_the_file(
            chat.link->0.files,
            id,
            shown,
            data,
            m as u32,
        );
    }
}

/// A file that is sent is delivered, whole and once: frame after frame that
/// carries its pieces leaves the receiver talking and shows how many have come
/// out of how many, and the last one hands the file over. Nothing is left of
/// the transfer then.
#[verifier::rlimit(60)]
pub proof fn law_a_file_that_is_sent_is_delivered(
    chat: ChatView,
    frames: Seq<Seq<u8>>,
    nickname: Seq<char>,
    id: u64,
    name: Seq<char>,
    data: Seq<u8>,
    k: u32,
)
    requires
        chat.link is Some,
        chat.link->0.session.phase == crate::session::Phase::Ready,
        chat.link->0.session.rx is Some,
        !chat.link->0.files.contains_key(id),
        0 < crate::files::piece_count(data.len()) <= crate::message::MAX_CHUNKS,
        chat.link->0.session.rx->0.ctr + frames.len() <= u64::MAX,
        carry_file(chat.link->0.session.rx->0, frames, nickname, id, name, data),
        k < frames.len(),
    ensures
        ({
            let total = crate::files::piece_count(data.len()) as u32;
            let shown = crate::message::sanitized(
                crate::text::cut(name, crate::message::MAX_FILENAME as nat),
            );
            let from = crate::message::honest(
                crate::text::cut(nickname, crate::message::MAX_NAME as nat),
            );
            let came = after_hearing(chat, frames.take(k as int)).received(frames[k as int]);
            let progress = crate::ui::UiEventView::FileProgress {
                name: shown,
                sent: (k + 1) as u32,
                total,
                outgoing: false,
            };
            let before = if k == 0 && chat.link->0.idle_warned {
                seq![warning_cleared()]
            } else {
                Seq::empty()
            };
            &&& came.next is Talk
            &&& k + 1 < total ==> came.emit == before + seq![progress]
            &&& k + 1 == total ==> came.emit == before + seq![
                progress,
                crate::ui::UiEventView::File {
                    from,
                    name: shown,
                    data: crate::encoding::base64(data),
                },
            ]
            &&& after_hearing(chat, frames).link is Some
            &&& after_hearing(chat, frames).link->0.files == chat.link->0.files
        }),
{
    let total = crate::files::piece_count(data.len());
    let shown = crate::message::sanitized(
        crate::text::cut(name, crate::message::MAX_FILENAME as nat),
    );
    let now = after_hearing(chat, frames.take(k as int));
    lemma_file_is_heard(chat, frames, nickname, id, name, data, k as nat);
    lemma_file_is_heard(chat, frames, nickname, id, name, data, total);
    assert(frames.take(total as int) =~= frames);
    crate::files::law_pieces_are_never_empty(data, k as nat);
    law_pieces_sent_are_received(
        now,
        frames[k as int],
        nickname,
        id,
        k,
        total as u32,
        name,
        crate::files::piece(data, k as nat),
    );
    crate::files::law_pieces_in_order_make_the_file(chat.link->0.files, id, shown, data, k);
}

/// A file that is picked is announced with as many pieces as are sent of it:
/// so many of at most 30,000 bytes as hold it and no more. It goes under a
/// number of its own, and the next file under the next one.
pub proof fn law_a_file_is_announced_as_it_is_sent(chat: ChatView, name: Seq<char>, data: Seq<u8>)
    requires
        chat.link is Some,
        0 < data.len(),
        crate::files::piece_count(data.len()) < u32::MAX,
    ensures
        ({
            let after = chat.picked(name, data);
            let o = after.chat.link->0.outgoing->0;
            &&& after.next is SendFile
            &&& after.chat.link->0.outgoing is Some
            &&& (o.total - 1) * 30_000 < data.len() <= o.total * 30_000
            &&& o.total == crate::files::piece_count(data.len())
            &&& o.index == 0 && o.name == name && o.data == data
            &&& o.id == chat.link->0.next_transfer_id
            &&& chat.link->0.next_transfer_id < u64::MAX ==> after.chat.link->0.next_transfer_id
                == o.id + 1
            &&& after.chat.link->0.session == chat.link->0.session
            &&& after.chat.link->0.files == chat.link->0.files
        }),
{
}

/// The conversation after sending `k` pieces of a file.
pub open spec fn after_sending_pieces(chat: ChatView, k: nat) -> ChatView
    decreases k,
{
    if k == 0 {
        chat
    } else {
        after_sending_pieces(chat, (k - 1) as nat).next_piece().chat.piece_sent().chat
    }
}

/// All pieces of a picked file are sent, in order, each once: piece `k` is what
/// is encrypted in round `k`, under the file's number and name and out of as
/// many as there are, and the user is shown that it has gone. After the last
/// one the conversation goes on, and there is nothing left to send.
pub proof fn law_all_pieces_of_a_file_are_sent(
    chat: ChatView,
    name: Seq<char>,
    data: Seq<u8>,
    k: nat,
)
    requires
        chat.link is Some,
        crate::files::piece_count(data.len()) < u32::MAX,
        k <= crate::files::piece_count(data.len()),
        forall|i: nat|
            i < k ==> (#[trigger] after_sending_pieces(
                chat.picked(name, data).chat,
                i,
            ).next_piece()).next is Transmit,
    ensures
        ({
            let total = crate::files::piece_count(data.len());
            let now = after_sending_pieces(chat.picked(name, data).chat, k);
            let o = now.link->0.outgoing->0;
            let next = now.next_piece();
            &&& now.link is Some && now.link->0.outgoing is Some
            &&& now.nickname == chat.nickname && now.reconnects == chat.reconnects
            &&& o.index == k && o.name == name && o.data == data && o.id
                == chat.link->0.next_transfer_id
            &&& total > 0 ==> o.total == total
            &&& k == total ==> next.next is Talk && next.emit.len() == 0 && next.chat.link is Some
                && next.chat.link->0.outgoing is None
            &&& k < total ==> !(next.next is Talk)
            &&& k < total && next.next is Transmit ==> {
                &&& now.link->0.session.encrypted(
                    crate::message::chunk_bytes(
                        chat.nickname,
                        o.id,
                        k as u32,
                        total as u32,
                        name,
                        crate::files::piece(data, k),
                    ),
                ) matches Ok((_, f))
                &&& next.next == NextView::Transmit(f)
                &&& next.chat.piece_sent().emit == seq![
                    crate::ui::UiEventView::FileProgress {
                        name,
                        sent: (k + 1) as u32,
                        total: total as u32,
                        outgoing: true,
                    },
                ]
            }
        }),
    decreases k,
{
    if k > 0 {
        let m = (k - 1) as nat;
        law_all_pieces_of_a_file_are_sent(chat, name, data, m);
        assert(after_sending_pieces(chat.picked(name, data).chat, m).next_piece().next is Transmit);
    }
}

/// What typing does: the text goes out, under the user's name, as the next
/// message of the session; a text that is too long is said to be, and the
/// conversation goes on.
pub proof fn law_what_typing_does(chat: ChatView, text: Seq<char>)
    requires
        chat.link is Some,
    ensures
        ({
            let link = chat.link->0;
            let after = chat.typed(text);
            let m = crate::message::text_bytes(chat.nickname, text);
            match link.session.encrypted(m) {
                Ok((session, f)) => {
                    &&& after.next == NextView::Transmit(f)
                    &&& after.emit == link.cleared()
                    &&& after.chat.link->0.session == session
                    &&& after.chat.link->0.files == link.files
                },
                Err(e) => if e == ProtoError::TooLong {
                    &&& after.next is Talk
                    &&& after.chat.link->0.session == link.session
                    &&& after.emit == link.cleared() + seq![
                        crate::ui::UiEventView::Status {
                            text: "Message too long."@,
                            stage: "verify"@,
                        },
                    ]
                } else {
                    after.next == NextView::End(crate::error::error_text(e))
                },
            }
        }),
{
}

/// What the user is told when a frame ends the conversation: that it failed
/// verification, where it was forged or out of order, and otherwise what was
/// wrong with it.
pub proof fn law_refusals_are_explained(chat: ChatView, raw: Seq<u8>)
    requires
        chat.link is Some,
    ensures
        match chat.link->0.session.accepted(raw) {
            Err(e) => chat.received(raw).next == NextView::End(
                if e == ProtoError::Decrypt || e is OutOfOrder {
                    "Message failed verification — session ended for safety."@
                } else {
                    crate::error::error_text(e)
                },
            ),
            Ok((_, crate::session::EventView::Message(m))) => crate::message::decoded(m) is None
                ==> chat.received(raw).next == NextView::End("Received a malformed message."@),
            Ok(_) => chat.received(raw).next == NextView::End("Unexpected handshake frame."@),
        },
{
}

/// What a new connection starts with: nothing of the last one but the name, and
/// the user is told whether they are there for the first time or back.
pub proof fn law_a_new_connection_starts_afresh(
    chat: ChatView,
    session: crate::session::SessionView,
)
    ensures
        ({
            let after = chat.connected(session);
            &&& after.next is Talk
            &&& after.emit == seq![
                if chat.reconnects == 0 {
                    crate::ui::UiEventView::Ready
                } else {
                    crate::ui::UiEventView::Reconnected
                },
            ]
            &&& after.chat.link is Some
            &&& after.chat.link->0.session == session
            &&& after.chat.link->0.files.dom() == Set::<u64>::empty()
            &&& after.chat.link->0.outgoing is None
            &&& !after.chat.link->0.idle_warned
            &&& after.chat.nickname == chat.nickname && after.chat.reconnects == chat.reconnects
        }),
{
    assert(chat.connected(session).chat.link->0.files.dom() =~= Set::<u64>::empty());
}

/// A connection that drops is chased up to twenty times in all: the first
/// twenty times the user is told that it is being chased, and after that the
/// conversation ends with the reason.
pub proof fn law_a_drop_is_chased_twenty_times(chat: ChatView, why: Seq<char>)
    requires
        chat.wf(),
    ensures
        chat.reconnects < 20 ==> {
            &&& chat.lost(why).next is Connect
            &&& chat.lost(why).emit == seq![crate::ui::UiEventView::Reconnecting]
            &&& chat.lost(why).chat.reconnects == chat.reconnects + 1
        },
        chat.reconnects >= 20 ==> chat.lost(why).next == NextView::End(why) && chat.lost(
            why,
        ).emit.len() == 0,
        0 < chat.reconnects < 20 ==> chat.connect_failed(why).next is Connect && chat.connect_failed(
            why,
        ).chat.reconnects == chat.reconnects + 1,
        chat.reconnects >= 20 ==> chat.connect_failed(why).next == NextView::End(
            "Lost the connection and could not get it back."@,
        ),
{
}

/// The user is warned of silence a minute before the time they chose is over,
/// or at once where they chose less.
pub proof fn law_when_silence_is_warned_of(chat: ChatView)
    requires
        chat.link is Some,
        !chat.link->0.idle_warned,
    ensures
        chat.idle >= 60 ==> chat.next_wait() == Some((chat.idle - 60) as u64),
        chat.idle < 60 ==> chat.next_wait() == Some(0u64),
        chat.waited().emit == seq![
            crate::ui::UiEventView::IdleWarning { seconds_left: 60, active: true },
        ],
        chat.waited().chat.link->0.session == chat.link->0.session,
        chat.waited().chat.link->0.files == chat.link->0.files,
{
}

/// What is done is all that a reaction says: the conversation becomes what it
/// says, the user is told every event in turn, and what is next is next.
pub proof fn law_reactions_are_followed_in_full(
    reaction: Reaction,
    chat: ChatView,
    outcome: Outcome,
    i: int,
)
    requires
        follows(reaction, chat, outcome),
        0 <= i < reaction.emit.len(),
    ensures
        chat == reaction.chat,
        outcome.next@ == reaction.next,
        outcome.emit@.len() == reaction.emit.len(),
        outcome.emit@[i]@ == reaction.emit[i],
{
    assert(crate::ui::said(outcome.emit@)[i] == outcome.emit@[i]@);
}

/// How a chat ends: with the reason, without a connection, and otherwise as it
/// was.
pub proof fn law_how_a_chat_ends(
    chat: ChatView,
    emit: Seq<crate::ui::UiEventView>,
    why: Seq<char>,
)
    ensures
        chat.ended(emit, why).next == NextView::End(why),
        chat.ended(emit, why).emit == emit,
        chat.ended(emit, why).chat == (ChatView {
            nickname: chat.nickname,
            idle: chat.idle,
            reconnects: chat.reconnects,
            link: None,
        }),
{
}

/// What is said of a code while it is typed is what is wrong with it, and
/// nothing where nothing is.
pub proof fn law_what_is_wrong_is_said(r: Result<(), String>, verdict: Result<(), ProtoError>)
    requires
        announces(r, verdict),
    ensures
        r is Ok <==> verdict is Ok,
        r matches Err(text) ==> (verdict matches Err(e) && text@ == crate::error::error_text(e)),
{
}

} // verus!
