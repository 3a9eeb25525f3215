//! Every way a session can fail.

use vstd::prelude::*;
use crate::code::{MIN_CODE_LEN, MIN_DISTINCT};
use crate::text::push_decimal;

verus! {

/// Every way a Narco session can fail.
///
/// Variants deliberately carry no plaintext, key material, or room code, so an
/// `Error` is always safe to surface to the UI or to a log.
#[derive(Debug, Clone, Copy, PartialEq, Eq, Structural)]
pub enum Error {
    /// Code is shorter than [`MIN_CODE_LEN`] after trimming.
    CodeTooShort,
    /// Code has fewer than [`MIN_DISTINCT`] distinct characters.
    CodeTooRepetitive,
    /// Code is a monotonic run such as `0123456789`.
    CodeSequential,
    /// Code matched the built-in weak list.
    CodeWeak,
    /// Argon2id failed.
    Kdf,
    /// Frame was truncated, empty, or the wrong length for its kind.
    BadFrame,
    /// Frame kind byte is not one of the three defined kinds.
    UnknownKind(u8),
    /// The peer's handshake message was byte-identical to ours: the relay
    /// reflected our own message back at us.
    Reflection,
    /// The peer's handshake message was not a usable SPAKE2 message. Says
    /// nothing about the secret the peer holds.
    BadHandshake,
    /// Key confirmation did not match. In practice: the two sides typed
    /// different codes, or the relay tampered with the handshake.
    ConfirmMismatch,
    /// Message counter was not the expected next value. Over an ordered
    /// transport this means replay or reordering, never packet loss.
    OutOfOrder { expected: u64, got: u64 },
    /// AEAD authentication failed.
    Decrypt,
    /// Padding was malformed or its trailing bytes were not zero.
    Padding,
    /// Plaintext exceeded [`crate::frame::MAX_PLAINTEXT`].
    TooLong,
    /// Operation is not valid in the session's current phase.
    WrongPhase,
    /// Session was aborted or wiped and cannot be reused.
    Dead,
}

/// What the user is told about an error.
pub open spec fn error_text(e: Error) -> Seq<char> {
    match e {
        Error::CodeTooShort => "code must be at least "@ + crate::text::decimal(
            MIN_CODE_LEN as nat,
        ) + " characters"@,
        Error::CodeTooRepetitive => "code must use at least "@ + crate::text::decimal(
            MIN_DISTINCT as nat,
        ) + " different characters"@,
        Error::CodeSequential => "code must not be a simple sequence"@,
        Error::CodeWeak => "code is too common to be secret"@,
        Error::Kdf => "key derivation failed"@,
        Error::BadFrame => "malformed frame"@,
        Error::UnknownKind(k) => "unknown frame kind "@ + crate::text::decimal(k as nat),
        Error::Reflection => "handshake reflected: the relay is misbehaving"@,
        Error::BadHandshake => "malformed handshake message"@,
        Error::ConfirmMismatch => "handshake failed: codes do not match"@,
        Error::OutOfOrder { expected, got } => "out-of-order message (expected "@
            + crate::text::decimal(expected as nat) + ", got "@ + crate::text::decimal(got as nat)
            + ")"@,
        Error::Decrypt => "message failed authentication"@,
        Error::Padding => "malformed padding"@,
        Error::TooLong => "message too long"@,
        Error::WrongPhase => "operation not valid in this phase"@,
        Error::Dead => "session has ended"@,
    }
}

impl Error {
    /// The error in words, for the user.
    pub fn to_string(&self) -> (text: String)
        ensures
            text@ == error_text(*self),
    {
        match self {
            Error::CodeTooShort => {
                let mut s: String = "code must be at least ".to_owned();
                push_decimal(&mut s, MIN_CODE_LEN as u64);
                s.append(" characters");
                s
            },
            Error::CodeTooRepetitive => {
                let mut s: String = "code must use at least ".to_owned();
                push_decimal(&mut s, MIN_DISTINCT as u64);
                s.append(" different characters");
                s
            },
            Error::CodeSequential => "code must not be a simple sequence".to_owned(),
            Error::CodeWeak => "code is too common to be secret".to_owned(),
            Error::Kdf => "key derivation failed".to_owned(),
            Error::BadFrame => "malformed frame".to_owned(),
            Error::UnknownKind(k) => {
                let mut s: String = "unknown frame kind ".to_owned();
                push_decimal(&mut s, *k as u64);
                s
            },
            Error::Reflection => "handshake reflected: the relay is misbehaving".to_owned(),
            Error::BadHandshake => "malformed handshake message".to_owned(),
            Error::ConfirmMismatch => "handshake failed: codes do not match".to_owned(),
            Error::OutOfOrder { expected, got } => {
                let mut s: String = "out-of-order message (expected ".to_owned();
                push_decimal(&mut s, *expected);
                s.append(", got ");
                push_decimal(&mut s, *got);
                s.append(")");
                s
            },
            Error::Decrypt => "message failed authentication".to_owned(),
            Error::Padding => "malformed padding".to_owned(),
            Error::TooLong => "message too long".to_owned(),
            Error::WrongPhase => "operation not valid in this phase".to_owned(),
            Error::Dead => "session has ended".to_owned(),
        }
    }
}

/// The two errors about limits name them, and the two about what was received
/// name it.
pub proof fn law_errors_name_what_was_wrong(k: u8, expected: u64, got: u64)
    ensures
        error_text(Error::UnknownKind(k)) == "unknown frame kind "@ + crate::text::decimal(
            k as nat,
        ),
        error_text(Error::OutOfOrder { expected, got }) == "out-of-order message (expected "@
            + crate::text::decimal(expected as nat) + ", got "@ + crate::text::decimal(got as nat)
            + ")"@,
        error_text(Error::CodeTooShort) == "code must be at least "@ + crate::text::decimal(10)
            + " characters"@,
        error_text(Error::CodeTooRepetitive) == "code must use at least "@ + crate::text::decimal(6)
            + " different characters"@,
{
}

} // verus!
