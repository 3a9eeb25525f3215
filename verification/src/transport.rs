//! Establishing a peer connection over Tor with no server and no signalling.
//!
//! Both peers derive the *same* onion address from the room code (see
//! [`crate::identity`]). One person hosts and publishes it; the other only
//! dials, so a device never connects to itself.
//!
//! What is here are the decisions: what to tell the user, when to wait for the
//! next connection and when to give up. Talking to Tor is elsewhere; it reports
//! what happened and does what it is told.

use vstd::prelude::*;
use crate::error::Error as ProtoError;
use crate::text::push_decimal;
use crate::wire::ConnectError;

verus! {

/// Virtual port the peer service listens on. Onion services have their own port
/// space, so the value is arbitrary and never appears on the real network.
pub const VIRTUAL_PORT: u16 = 9001;

/// Give up if the other person never shows, in seconds. Deliberately long (the
/// two people may press Start/Join minutes apart); the user can cancel any time.
pub const MEET_TIMEOUT: u64 = 1800;

/// Give up on joining Tor and report it, rather than sitting on the connecting
/// screen forever, in seconds. On a working network this takes ~20-40s; a
/// network that blocks Tor otherwise hangs with no explanation and no way to
/// retry.
pub const BOOTSTRAP_TIMEOUT: u64 = 150;

/// Pause between dial attempts while joining, in seconds. The host may not have
/// published yet, so early failures are expected rather than fatal.
pub const DIAL_RETRY: u64 = 4;

/// How to reach Tor through obfs4 bridges on a censored network.
#[derive(Clone, Debug)]
pub struct BridgeSettings {
    /// Absolute path to the `lyrebird` (obfs4) pluggable-transport binary.
    /// The app bundles this and resolves the path at runtime.
    pub lyrebird_path: String,
    /// obfs4 bridge lines, e.g. `obfs4 1.2.3.4:443 <FINGERPRINT> cert=… iat-mode=0`.
    /// Supplied by the app: built-in defaults and/or a line the user pasted
    /// from <https://bridges.torproject.org>.
    pub lines: Vec<String>,
}

/// Coarse progress, for a UI that must explain a slow connect.
#[derive(Clone, PartialEq, Eq, Debug)]
pub enum Status {
    /// Connecting to the Tor network. The slowest and most variable step.
    BootstrappingTor { percent: u8 },
    /// Tor appears to be blocked or unreachable on this network.
    TorBlocked { detail: String },
    /// Connected to Tor; publishing our address.
    PublishingService,
    /// Published; waiting for the other person.
    WaitingForPeer,
    /// A previous round timed out; trying the other slot.
    Retrying { round: u32 },
    /// A peer connection exists. The handshake runs next.
    PeerFound,
}

/// Why there is no connection to Tor.
#[derive(Debug)]
pub enum TorError {
    Bootstrap(String),
    Launch(String),
    /// No service was launched, which means the keystore is disabled.
    KeystoreDisabled,
    Config(String),
}

/// What the user is told about an error.
pub open spec fn tor_error_text(e: TorError) -> Seq<char> {
    match e {
        TorError::Bootstrap(e) => "could not connect to the Tor network: "@ + e@,
        TorError::Launch(e) => "could not publish onion service: "@ + e@,
        TorError::KeystoreDisabled => "Arti keystore is disabled"@,
        TorError::Config(e) => "invalid Tor configuration: "@ + e@,
    }
}

/// `text` after `prefix`.
fn joined(prefix: &str, text: &str) -> (r: String)
    ensures
        r@ == prefix@ + text@,
{
    let mut r: String = prefix.to_owned();
    r.append(text);
    r
}

impl TorError {
    /// The error in words, for the user.
    pub fn to_string(&self) -> (text: String)
        ensures
            text@ == tor_error_text(*self),
    {
        match self {
            TorError::Bootstrap(e) => joined("could not connect to the Tor network: ", e.as_str()),
            TorError::Launch(e) => joined("could not publish onion service: ", e.as_str()),
            TorError::KeystoreDisabled => "Arti keystore is disabled".to_owned(),
            TorError::Config(e) => joined("invalid Tor configuration: ", e.as_str()),
        }
    }
}

/// What the app is told of an error: which engine it comes from does not show.
pub fn app_error(e: TorError) -> (told: crate::status::TorError)
    ensures
        match e {
            TorError::Launch(why) => told == crate::status::TorError::Launch(why),
            e => told matches crate::status::TorError::Engine(text) && text@ == tor_error_text(e),
        },
{
    match e {
        TorError::Launch(why) => crate::status::TorError::Launch(why),
        e => crate::status::TorError::Engine(e.to_string()),
    }
}

/// What the app is told of the progress. A network that blocks Tor is named in
/// the detail.
pub fn app_status(s: Status) -> (told: crate::status::Status)
    ensures
        match s {
            Status::BootstrappingTor { percent: p } =>
            told matches crate::status::Status::BootstrappingTor { percent, detail } && percent == p
                && detail@ == "connecting"@,
            Status::TorBlocked { detail: d } =>
            told matches crate::status::Status::BootstrappingTor { percent, detail } && percent == 0
                && detail@ == d@,
            Status::PublishingService => told == crate::status::Status::PublishingService,
            Status::WaitingForPeer => told == crate::status::Status::WaitingForPeer,
            Status::Retrying { .. } => told == crate::status::Status::WaitingForPeer,
            Status::PeerFound => told == crate::status::Status::PeerFound,
        },
{
    match s {
        Status::BootstrappingTor { percent } => crate::status::Status::BootstrappingTor {
            percent,
            detail: "connecting".to_owned(),
        },
        Status::TorBlocked { detail } => crate::status::Status::BootstrappingTor {
            percent: 0,
            detail,
        },
        Status::PublishingService => crate::status::Status::PublishingService,
        Status::WaitingForPeer => crate::status::Status::WaitingForPeer,
        Status::Retrying { .. } => crate::status::Status::WaitingForPeer,
        Status::PeerFound => crate::status::Status::PeerFound,
    }
}

impl BridgeSettings {
    /// Bridges are of use only where there is at least one. What else is wrong
    /// with a line, Tor's own parser says.
    pub fn check(&self) -> (r: Result<(), TorError>)
        ensures
            match r {
                Ok(_) => self.lines@.len() > 0,
                Err(e) => {
                    &&& self.lines@.len() == 0
                    &&& e matches TorError::Config(text) && text@ == "no bridge lines provided"@
                },
            },
    {
        if self.lines.len() == 0 {
            Err(TorError::Config("no bridge lines provided".to_owned()))
        } else {
            Ok(())
        }
    }
}

/// The error for a bridge line that Tor's parser refused, with its reason.
pub fn bad_bridge_line(reason: &str) -> (e: TorError)
    ensures
        e matches TorError::Config(text) && text@ == "bad bridge line: "@ + reason@,
{
    TorError::Config(joined("bad bridge line: ", reason))
}

/// How far Tor has come with joining the network.
#[derive(Debug)]
pub struct Bootstrap {
    pub percent: u8,
    /// Why Tor thinks it is blocked, if it does.
    pub blocked: Option<String>,
}

/// What happened while joining the network.
#[derive(Debug)]
pub enum BootstrapEvent {
    /// Tor reported progress.
    Progress { percent: u8, blocked: Option<String> },
    /// Some time went by without progress.
    Tick,
    /// Tor has joined.
    Joined,
    /// Tor gave up, and this is why.
    Failed(String),
    /// [`BOOTSTRAP_TIMEOUT`] has passed.
    Deadline,
}

/// What to do while joining the network.
#[derive(Debug)]
pub enum BootstrapStep {
    /// Tell the user and keep waiting.
    Report(Status),
    /// Done.
    Joined,
    /// Give up.
    Failed(TorError),
}

/// What the user is told of the progress.
pub open spec fn is_progress(status: Status, percent: u8, blocked: Option<String>) -> bool {
    match blocked {
        Some(d) => status matches Status::TorBlocked { detail } && detail@ == d@,
        None => status == (Status::BootstrappingTor { percent }),
    }
}

/// What the user is told when Tor stalls at `percent`.
pub open spec fn stalled_text(percent: u8) -> Seq<char> {
    "could not reach the Tor network after "@ + crate::text::decimal(BOOTSTRAP_TIMEOUT as nat)
        + "s (stuck at "@ + crate::text::decimal(percent as nat)
        + "%). This network is probably blocking Tor — try a phone hotspot or a VPN."@
}

impl Bootstrap {
    /// Joining begins. The user is told so.
    pub fn start() -> (r: (Self, Status))
        ensures
            r.0.percent == 0,
            r.0.blocked is None,
            r.1 == (Status::BootstrappingTor { percent: 0 }),
    {
        (Bootstrap { percent: 0, blocked: None }, Status::BootstrappingTor { percent: 0 })
    }

    fn report(&self) -> (status: Status)
        ensures
            is_progress(status, self.percent, self.blocked),
    {
        match &self.blocked {
            Some(d) => Status::TorBlocked { detail: d.clone() },
            None => Status::BootstrappingTor { percent: self.percent },
        }
    }

    /// Decide what to do about what happened.
    ///
    /// Progress is only reported when it changes, so a stall goes silent. The
    /// tick keeps the UI moving; the deadline turns an indefinite hang into a
    /// clear, actionable error.
    pub fn step(&mut self, event: BootstrapEvent) -> (step: BootstrapStep)
        ensures
            match event {
                BootstrapEvent::Progress { percent, blocked } => {
                    &&& final(self).percent == percent
                    &&& final(self).blocked == blocked
                    &&& step matches BootstrapStep::Report(status) && is_progress(
                        status,
                        percent,
                        blocked,
                    )
                },
                BootstrapEvent::Tick => {
                    &&& *final(self) == *old(self)
                    &&& step matches BootstrapStep::Report(status) && is_progress(
                        status,
                        old(self).percent,
                        old(self).blocked,
                    )
                },
                BootstrapEvent::Joined => *final(self) == *old(self) && step is Joined,
                BootstrapEvent::Failed(why) => {
                    &&& *final(self) == *old(self)
                    &&& step matches BootstrapStep::Failed(TorError::Bootstrap(text)) && text@
                        == why@
                },
                BootstrapEvent::Deadline => {
                    &&& *final(self) == *old(self)
                    &&& step matches BootstrapStep::Failed(TorError::Bootstrap(text)) && text@
                        == stalled_text(old(self).percent)
                },
            },
    {
        match event {
            BootstrapEvent::Progress { percent, blocked } => {
                self.percent = percent;
                self.blocked = blocked;
                BootstrapStep::Report(self.report())
            },
            BootstrapEvent::Tick => BootstrapStep::Report(self.report()),
            BootstrapEvent::Joined => BootstrapStep::Joined,
            BootstrapEvent::Failed(why) => BootstrapStep::Failed(TorError::Bootstrap(why)),
            BootstrapEvent::Deadline => {
                let mut text: String = "could not reach the Tor network after ".to_owned();
                push_decimal(&mut text, BOOTSTRAP_TIMEOUT);
                text.append("s (stuck at ");
                push_decimal(&mut text, self.percent as u64);
                text.append(
                    "%). This network is probably blocking Tor — try a phone hotspot or a VPN.",
                );
                BootstrapStep::Failed(TorError::Bootstrap(text))
            },
        }
    }
}

/// The local label of the `n`th service that was launched.
///
/// Unique per launch: a reused label would collide with the key of the last
/// one. The label is local; the address comes from the keypair.
pub fn nickname(n: u64) -> (label: String)
    ensures
        label@ == "narco"@ + crate::text::decimal(n as nat),
{
    let mut label: String = "narco".to_owned();
    push_decimal(&mut label, n);
    label
}

/// What happened to a host that waits for its peer.
#[derive(Debug)]
pub enum HostEvent {
    /// The service is published.
    Published,
    /// [`MEET_TIMEOUT`] has passed, or no more connections will come.
    NobodyCame,
    /// Someone knocked, but the connection could not be accepted.
    AcceptFailed,
    /// Someone connected.
    Accepted,
    /// The handshake over the connection was confirmed.
    Confirmed,
    /// The handshake over the connection failed.
    HandshakeFailed(ConnectError),
}

/// What a host does next.
#[derive(Debug)]
pub enum HostStep {
    /// Tell the user this, if anything, and wait for the next connection.
    Wait(Option<Status>),
    /// Tell the user that the wait goes on, answer nobody for this many seconds,
    /// then wait for the next connection.
    Pause(u64),
    /// Tell the user that a peer was found, and run the handshake.
    Handshake,
    /// Paired. Drop the service, so that no one else can join.
    Paired,
    /// Give up.
    Failed(ConnectError),
}

/// How many wrong secrets a host answers. After the last it stops.
pub const MAX_GUESSES: u32 = 5;

/// By how much each wrong secret puts off the answer to the next, in seconds.
pub const GUESS_PAUSE: u64 = 5;

/// How long a host answers nobody after its `wrong`th wrong secret, in seconds.
pub open spec fn pause_after(wrong: u32) -> u64 {
    (GUESS_PAUSE * wrong) as u64
}

/// Whether a handshake failed because the codes differ.
pub open spec fn is_mismatch(e: ConnectError) -> bool {
    e matches ConnectError::Protocol(why) && why == ProtoError::ConfirmMismatch
}

/// Whether someone tried a wrong secret. Rubbish is not a guess: only a
/// confirmation that does not match is.
pub open spec fn is_guess(event: HostEvent) -> bool {
    event matches HostEvent::HandshakeFailed(e) && is_mismatch(e)
}

/// What a host that has seen `wrong` wrong secrets does about an event.
pub open spec fn host_decision(wrong: u32, event: HostEvent) -> HostStep {
    match event {
        HostEvent::Published => HostStep::Wait(Some(Status::WaitingForPeer)),
        HostEvent::NobodyCame => HostStep::Failed(ConnectError::TimedOut),
        HostEvent::AcceptFailed => HostStep::Wait(None),
        HostEvent::Accepted => HostStep::Handshake,
        HostEvent::Confirmed => HostStep::Paired,
        HostEvent::HandshakeFailed(e) => if !is_mismatch(e) {
            HostStep::Wait(Some(Status::WaitingForPeer))
        } else if wrong + 1 == MAX_GUESSES {
            HostStep::Failed(ConnectError::Protocol(ProtoError::ConfirmMismatch))
        } else {
            HostStep::Pause(pause_after((wrong + 1) as u32))
        },
    }
}

/// A host that waits for its peer.
#[derive(Debug)]
pub struct Hosting {
    /// How many wrong secrets it has seen.
    pub wrong: u32,
}

impl Hosting {
    /// A host that has seen nobody yet.
    pub fn new() -> (hosting: Self)
        ensures
            hosting.wrong == 0,
    {
        Hosting { wrong: 0 }
    }

    /// Decide what the host does next.
    ///
    /// The first connection that completes the handshake is the peer. A stray
    /// connector or a connection that dropped leaves the service up, and the
    /// host waits for the real peer. A wrong secret is counted: each puts off
    /// the answer to the next one further, and at [`MAX_GUESSES`] the host
    /// abandons the room.
    pub fn step(&mut self, event: HostEvent) -> (step: HostStep)
        requires
            old(self).wrong < MAX_GUESSES,
        ensures
            step == host_decision(old(self).wrong, event),
            event is Confirmed ==> step is Paired,
            event is Accepted ==> step is Handshake,
            step is Paired ==> event is Confirmed,
            step is Handshake ==> event is Accepted,
            final(self).wrong == (if is_guess(event) {
                old(self).wrong + 1
            } else {
                old(self).wrong as int
            }),
    {
        match event {
            HostEvent::Published => HostStep::Wait(Some(Status::WaitingForPeer)),
            HostEvent::NobodyCame => HostStep::Failed(ConnectError::TimedOut),
            HostEvent::AcceptFailed => HostStep::Wait(None),
            HostEvent::Accepted => HostStep::Handshake,
            HostEvent::Confirmed => HostStep::Paired,
            HostEvent::HandshakeFailed(ConnectError::Protocol(ProtoError::ConfirmMismatch)) => {
                self.wrong = self.wrong + 1;
                if self.wrong == MAX_GUESSES {
                    HostStep::Failed(ConnectError::Protocol(ProtoError::ConfirmMismatch))
                } else {
                    HostStep::Pause(GUESS_PAUSE * self.wrong as u64)
                }
            },
            HostEvent::HandshakeFailed(_) => HostStep::Wait(Some(Status::WaitingForPeer)),
        }
    }
}

/// How many wrong secrets a host has seen after some events.
pub open spec fn guesses(events: Seq<HostEvent>) -> nat
    decreases events.len(),
{
    if events.len() == 0 {
        0
    } else {
        guesses(events.drop_last()) + (if is_guess(events.last()) {
            1nat
        } else {
            0nat
        })
    }
}

/// Whether a host still answers after some events: at none of them did it pair
/// or give up.
pub open spec fn still_hosting(events: Seq<HostEvent>) -> bool
    decreases events.len(),
{
    events.len() > 0 ==> {
        let before = events.drop_last();
        let step = host_decision(guesses(before) as u32, events.last());
        still_hosting(before) && !(step is Paired) && !(step is Failed)
    }
}

/// Guessing is bounded: whatever happens, a host that still answers has seen
/// fewer than [`MAX_GUESSES`] wrong secrets, and that many end it.
pub proof fn law_guessing_is_bounded(events: Seq<HostEvent>)
    requires
        still_hosting(events),
    ensures
        guesses(events) < MAX_GUESSES,
        MAX_GUESSES == 5,
    decreases events.len(),
{
    if events.len() > 0 {
        law_guessing_is_bounded(events.drop_last());
    }
}

/// Each wrong secret is answered more slowly than the one before.
pub proof fn law_each_guess_is_answered_more_slowly(wrong: u32)
    requires
        wrong < MAX_GUESSES,
    ensures
        pause_after(wrong) < pause_after((wrong + 1) as u32),
{
}

/// What happened to a joiner that dials its peer.
#[derive(Debug)]
pub enum JoinEvent {
    /// Time to dial, `elapsed` seconds after the first attempt.
    Dial { elapsed: u64 },
    /// Nobody answered: the host has not published yet, perhaps.
    NoAnswer,
    /// Someone answered.
    Answered,
    /// The handshake over the connection was confirmed.
    Confirmed,
    /// The handshake over the connection failed.
    HandshakeFailed(ConnectError),
}

/// What a joiner does next.
#[derive(Debug)]
pub enum JoinStep {
    /// Dial the address.
    Dial,
    /// Tell the user that a peer was found, and run the handshake.
    Handshake,
    /// Tell the user that the wait goes on, pause for [`DIAL_RETRY`], and dial
    /// again.
    Retry,
    /// Paired.
    Paired,
    /// Give up.
    Failed(ConnectError),
}

/// Decide what a joiner does next.
///
/// The joiner keeps dialling until the host is reachable. Reaching the host
/// with a different code is another matter: retrying will not help, so it is
/// surfaced.
pub fn join_step(event: JoinEvent) -> (step: JoinStep)
    ensures
        match event {
            JoinEvent::Dial { elapsed } => if elapsed >= 1800 {
                step == JoinStep::Failed(ConnectError::TimedOut)
            } else {
                step is Dial
            },
            JoinEvent::NoAnswer => step is Retry,
            JoinEvent::Answered => step is Handshake,
            JoinEvent::Confirmed => step is Paired,
            JoinEvent::HandshakeFailed(e) => if is_mismatch(e) {
                step == JoinStep::Failed(ConnectError::Protocol(ProtoError::ConfirmMismatch))
            } else {
                step is Retry
            },
        },
{
    match event {
        JoinEvent::Dial { elapsed } => if elapsed >= MEET_TIMEOUT {
            JoinStep::Failed(ConnectError::TimedOut)
        } else {
            JoinStep::Dial
        },
        JoinEvent::NoAnswer => JoinStep::Retry,
        JoinEvent::Answered => JoinStep::Handshake,
        JoinEvent::Confirmed => JoinStep::Paired,
        JoinEvent::HandshakeFailed(ConnectError::Protocol(ProtoError::ConfirmMismatch)) =>
        JoinStep::Failed(ConnectError::Protocol(ProtoError::ConfirmMismatch)),
        JoinEvent::HandshakeFailed(_) => JoinStep::Retry,
    }
}

/// A confirmed handshake always pairs the host, and nothing else does; every
/// connection that is accepted is given its handshake. It does not matter how
/// many wrong secrets came before.
pub proof fn law_a_confirmed_peer_is_always_paired(wrong: u32, event: HostEvent)
    requires
        wrong < MAX_GUESSES,
    ensures
        host_decision(wrong, event) is Paired <==> event is Confirmed,
        host_decision(wrong, event) is Handshake <==> event is Accepted,
{
}

/// A host gives up for two reasons only: nobody came, or the last wrong secret
/// it answers. Anything else that goes wrong leaves it waiting, and a wrong
/// secret before the last makes it pause.
pub proof fn law_when_a_host_gives_up(wrong: u32, event: HostEvent)
    requires
        wrong < MAX_GUESSES,
    ensures
        ({
            let step = host_decision(wrong, event);
            let guess = event == HostEvent::HandshakeFailed(
                ConnectError::Protocol(ProtoError::ConfirmMismatch),
            );
            &&& step is Failed <==> event is NobodyCame || guess && wrong == 4
            &&& event is NobodyCame ==> step == HostStep::Failed(ConnectError::TimedOut)
            &&& step is Pause <==> guess && wrong < 4
            &&& event is AcceptFailed ==> step == HostStep::Wait(None)
            &&& event is Published || event is HandshakeFailed && !guess ==> step == HostStep::Wait(
                Some(Status::WaitingForPeer),
            )
            &&& is_guess(event) <==> guess
        }),
{
}

/// How long a host pauses: five seconds for each wrong secret so far.
pub proof fn law_how_long_a_host_pauses(wrong: u32, event: HostEvent)
    requires
        wrong < MAX_GUESSES,
    ensures
        host_decision(wrong, event) matches HostStep::Pause(secs) ==> secs == 5 * (wrong + 1),
{
}

/// Codes that differ are told from every other failure of a handshake.
pub proof fn law_what_a_mismatch_is(e: ConnectError)
    ensures
        is_mismatch(e) <==> e == ConnectError::Protocol(ProtoError::ConfirmMismatch),
{
}

/// While Tor is joined the user is shown how far it is, and why it is blocked
/// where it is.
pub proof fn law_what_progress_shows(status: Status, percent: u8, blocked: Option<String>)
    requires
        is_progress(status, percent, blocked),
    ensures
        match blocked {
            None => status == (Status::BootstrappingTor { percent }),
            Some(why) => status matches Status::TorBlocked { detail } && detail@ == why@,
        },
{
}

} // verus!
