//! What the app is told while a connection is being made, and how it fails.
//!
//! Shared by both Tor engines. Which engine is in use never reaches the app or
//! the UI: both produce these statuses and these errors.

use vstd::prelude::*;

verus! {

/// Coarse progress, for a UI that must explain a slow connect.
#[derive(Clone, PartialEq, Eq, Debug)]
pub enum Status {
    /// Joining the Tor network. `detail` is the engine's own phase description,
    /// e.g. "Loading relay descriptors", so a stall names the stage it stalled
    /// at rather than showing a frozen percentage.
    BootstrappingTor { percent: u8, detail: String },
    /// Connected to Tor; publishing our address.
    PublishingService,
    /// Published (or dialling); waiting for the other person.
    WaitingForPeer,
    /// A peer connection exists. The handshake runs next.
    PeerFound,
}

/// Why there is no connection to Tor.
#[derive(Debug)]
pub enum TorError {
    /// Tor itself could not be started or could not reach the network.
    Engine(String),
    /// Tor is running, but the meeting address could not be published.
    Launch(String),
}

/// What the user is told about an error.
pub open spec fn tor_error_text(e: TorError) -> Seq<char> {
    match e {
        TorError::Engine(e) => e@,
        TorError::Launch(e) => "could not publish onion service: "@ + e@,
    }
}

impl TorError {
    /// The error in words, for the user.
    pub fn to_string(&self) -> (text: String)
        ensures
            text@ == tor_error_text(*self),
    {
        match self {
            TorError::Engine(e) => e.clone(),
            TorError::Launch(e) => {
                let mut text: String = "could not publish onion service: ".to_owned();
                text.append(e.as_str());
                text
            },
        }
    }
}

} // verus!
