//! The password-authenticated key exchange, symmetric SPAKE2.

use vstd::prelude::*;
use spake2::{Ed25519Group, Identity, Password, Spake2};

verus! {

/// One side of a SPAKE2 exchange that has been started and not finished.
#[verifier::external_body]
pub struct Exchange {
    state: Spake2<Ed25519Group>,
}

/// What one side of an exchange works with.
pub struct ExchangeView {
    /// The password both sides share.
    pub password: Seq<u8>,
    /// The identity both sides share.
    pub identity: Seq<u8>,
    /// The secret scalar this side drew for this exchange.
    pub scalar: nat,
}

/// What a started exchange holds.
pub uninterp spec fn exchange_state(exchange: Exchange) -> ExchangeView;

/// The message of a side that drew `scalar`.
pub uninterp spec fn spake_message(password: Seq<u8>, scalar: nat) -> Seq<u8>;

/// The key of a side that drew `scalar` and received `peer`, or `None` where
/// `peer` is not a SPAKE2 message.
pub uninterp spec fn spake_key(
    password: Seq<u8>,
    identity: Seq<u8>,
    scalar: nat,
    peer: Seq<u8>,
) -> Option<Seq<u8>>;

/// Two sides that share password and identity, and drew `a` and `b`, each
/// find the other's message usable and arrive at one key.
pub open spec fn sides_agree(password: Seq<u8>, identity: Seq<u8>, a: nat, b: nat) -> bool {
    let key = spake_key(password, identity, a, spake_message(password, b));
    key is Some && key == spake_key(password, identity, b, spake_message(password, a))
}

/// `spake2::Spake2::<Ed25519Group>::start_symmetric`.
///
/// The scalar is drawn at random and nothing is claimed of it. The message is
/// 33 bytes that begin with the marker of the symmetric variant, and is a
/// function of password and scalar: `S || x*B + hash(password)*S`. Whatever
/// the other side draws, the two arrive at one key: both compute `x*y*B` and
/// hash it with the two messages in sorted order.
#[verifier::external_body]
pub(crate) fn start_symmetric(password: &[u8; 32], identity: &[u8]) -> (r: (Exchange, Vec<u8>))
    ensures
        exchange_state(r.0).password == password@,
        exchange_state(r.0).identity == identity@,
        r.1@ == spake_message(password@, exchange_state(r.0).scalar),
        r.1@.len() == 33,
        r.1@[0] == 0x53,
        forall|other: nat| #[trigger]
            sides_agree(password@, identity@, exchange_state(r.0).scalar, other),
{
    let password = Password::new(password);
    let (state, message) = Spake2::<Ed25519Group>::start_symmetric(
        &password,
        &Identity::new(identity),
    );
    (Exchange { state }, message)
}

/// `spake2::Spake2::finish`.
///
/// The key is a function of what the exchange holds and of the peer's message.
/// A wrong password does not make it fail: it yields a different key. It fails
/// only where the message is not 33 bytes that begin with the symmetric marker
/// and go on with a point of the curve.
#[verifier::external_body]
pub(crate) fn finish(exchange: Exchange, peer: &[u8]) -> (r: Option<Vec<u8>>)
    ensures
        match r {
            Some(key) => {
                &&& spake_key(exchange_state(exchange).password, exchange_state(exchange).identity, exchange_state(exchange).scalar, peer@)
                    == Some(key@)
                &&& key@.len() == 32
                &&& peer@.len() == 33
                &&& peer@[0] == 0x53
            },
            None => spake_key(
                exchange_state(exchange).password,
                exchange_state(exchange).identity,
                exchange_state(exchange).scalar,
                peer@,
            ) is None,
        },
{
    exchange.state.finish(peer).ok()
}

} // verus!
