//! Narco: private chat for two people. No accounts, no server, no history.
//!
//! Both people enter the same secret. It becomes a Tor address, they meet
//! there, and everything they say is end-to-end encrypted.
//!
//! * The protocol: [`code`], [`kdf`], [`pake`], [`session`], [`frame`] and
//!   [`message`] — room codes, the key derivation, the SPAKE2 handshake, the
//!   ratcheted transport and what a message means.
//! * Meeting: [`onion`], [`identity`], [`wire`], [`transport`] and [`daemon`] —
//!   where two people meet and what is said to Tor.
//! * The conversation: [`chat`], [`files`] and [`ui`].
//! * The optional relay: [`relay`].
//!
//! The library takes bytes in and hands bytes out. It knows nothing about
//! sockets, processes, clocks or windows.

use vstd::prelude::*;

pub mod bytes;
pub mod chat;
pub mod code;
pub mod crypto;
pub mod daemon;
pub mod encoding;
pub mod error;
pub mod files;
pub mod frame;
pub mod identity;
pub mod kdf;
pub mod message;
pub mod onion;
pub mod pake;
pub mod relay;
pub mod scan;
pub mod secret;
pub mod session;
pub mod status;
pub mod text;
pub mod transport;
pub mod ui;
pub mod wire;
pub mod wire_format;

pub use code::{generate, normalize, validate, GENERATED_LEN, MIN_CODE_LEN};
pub use error::Error;
pub use kdf::{derive_multi, derive_with_passphrase, is_valid_room_id, Derived};
pub use onion::{onion_key, OnionKey};
pub use session::{Event, Phase, Session};

verus! {

/// Protocol version. Bumped whenever the wire format or key schedule changes in
/// a way that breaks compatibility.
pub const VERSION: &'static str = "narco/v1";

} // verus!
