//! Turning a room code into onion-service identities, with Tor's own library.
//!
//! This is the piece that removes the need for a server. Both peers derive the
//! same two ed25519 keypairs from the same code, so they arrive at the same two
//! `.onion` addresses without ever being introduced. The Tor directory system
//! does the introducing, and it already exists.

use vstd::prelude::*;
use safelog::DisplayRedacted;
use tor_hscrypto::pk::{HsIdKey, HsIdKeypair};
use tor_llcrypto::pk::ed25519;
use crate::kdf::Derived;

verus! {

/// Which of the two code-derived onion identities this is.
///
/// Two identities exist so the peers can take opposite roles: one listens on
/// `A` while dialling `B`, and the other does the reverse. With a single
/// identity both peers would try to publish the same service and neither could
/// dial the other.
#[derive(Clone, Copy, PartialEq, Eq, Debug, Structural)]
pub enum Slot {
    A,
    B,
}

/// The other of the two slots.
pub open spec fn other_slot(slot: Slot) -> Slot {
    match slot {
        Slot::A => Slot::B,
        Slot::B => Slot::A,
    }
}

impl Slot {
    /// The other of the two slots.
    pub fn other(self) -> (other: Slot)
        ensures
            other == other_slot(self),
    {
        match self {
            Slot::A => Slot::B,
            Slot::B => Slot::A,
        }
    }

    /// The slot's name.
    pub fn as_str(self) -> (name: &'static str)
        ensures
            name@ == (match self {
                Slot::A => "A"@,
                Slot::B => "B"@,
            }),
    {
        match self {
            Slot::A => "A",
            Slot::B => "B",
        }
    }
}

/// Tor's keypair of an onion service.
#[verifier::external_type_specification]
#[verifier::external_body]
pub struct ExHsIdKeypair(HsIdKeypair);

/// The public key of a keypair.
pub uninterp spec fn keypair_public(keypair: HsIdKeypair) -> Seq<u8>;

/// The keypair that belongs to a secret seed.
pub uninterp spec fn keypair_of(seed: Seq<u8>) -> HsIdKeypair;

/// `tor_llcrypto`'s `ed25519::Keypair::from_bytes`, expanded, as an
/// `HsIdKeypair`.
///
/// The keypair is a function of the seed, and its public key is the ed25519
/// public key of that seed: `tor_llcrypto` hands the seed to `ed25519_dalek`.
#[verifier::external_body]
fn hs_keypair(seed: &[u8; 32]) -> (r: HsIdKeypair)
    ensures
        r == keypair_of(seed@),
        keypair_public(r) == crate::onion::ed25519_public(seed@),
{
    HsIdKeypair::from(ed25519::ExpandedKeypair::from(&ed25519::Keypair::from_bytes(seed)))
}

/// `tor_hscrypto`'s unredacted display of the `HsId` of a keypair: the v3 onion
/// address of its public key.
#[verifier::external_body]
fn hs_address(keypair: &HsIdKeypair) -> (r: String)
    ensures
        r@ == crate::onion::onion_address_of(keypair_public(*keypair)),
{
    HsIdKey::from(keypair).id().display_unredacted().to_string()
}

/// A code-derived onion service identity.
///
/// The keypair is held in memory only. It is never written to a keystore on
/// disk.
pub struct OnionIdentity {
    /// `<56 base32 chars>.onion`
    pub address: String,
    pub slot: Slot,
    keypair: HsIdKeypair,
}

/// What an identity holds.
pub struct IdentityView {
    pub address: Seq<char>,
    pub slot: Slot,
    pub keypair: HsIdKeypair,
}

impl View for OnionIdentity {
    type V = IdentityView;

    closed spec fn view(&self) -> IdentityView {
        IdentityView { address: self.address@, slot: self.slot, keypair: self.keypair }
    }
}

impl OnionIdentity {
    /// Consume this identity, yielding the keypair for launching a service.
    pub fn into_keypair(self) -> (keypair: HsIdKeypair)
        ensures
            keypair == self@.keypair,
    {
        self.keypair
    }

    /// The identity as it may be shown in a log: its slot, and neither the
    /// address nor the key, since publishing the address is equivalent to
    /// publishing the room code's fingerprint.
    pub fn to_debug(&self) -> (text: String)
        ensures
            text@ == "OnionIdentity { slot: "@ + slot_name(self@.slot)
                + ", address: \"<redacted>.onion\", keypair: \"<redacted>\" }"@,
    {
        let mut text: String = "OnionIdentity { slot: ".to_owned();
        text.append(self.slot.as_str());
        text.append(", address: \"<redacted>.onion\", keypair: \"<redacted>\" }");
        text
    }
}

/// The name of a slot.
pub open spec fn slot_name(slot: Slot) -> Seq<char> {
    match slot {
        Slot::A => "A"@,
        Slot::B => "B"@,
    }
}

/// Whether an identity is the one that a seed derives for a slot.
pub open spec fn is_identity(id: IdentityView, seed: Seq<u8>, slot: Slot) -> bool {
    &&& id.slot == slot
    &&& id.keypair == keypair_of(seed)
    &&& id.address == crate::onion::onion_address_of(crate::onion::ed25519_public(seed))
}

/// The seed of a slot.
pub open spec fn slot_seed(derived: crate::kdf::DerivedView, slot: Slot) -> Seq<u8> {
    match slot {
        Slot::A => derived.onion_seed_a,
        Slot::B => derived.onion_seed_b,
    }
}

/// Build an onion identity from a 32-byte seed.
///
/// The seed is treated as an ed25519 secret key and expanded in the standard
/// way, so the resulting address is an ordinary v3 onion address that any Tor
/// client can reach.
fn from_seed(seed: &[u8; 32], slot: Slot) -> (id: OnionIdentity)
    ensures
        is_identity(id@, seed@, slot),
{
    let keypair: HsIdKeypair = hs_keypair(seed);
    let address: String = hs_address(&keypair);
    OnionIdentity { address, slot, keypair }
}

/// Derive both onion identities for a room.
///
/// Both peers call this with the same code and get identical results, which is
/// the entire trick: no signalling server is needed because the code already
/// encodes where to meet.
pub fn identities(derived: &Derived) -> (pair: (OnionIdentity, OnionIdentity))
    ensures
        is_identity(pair.0@, slot_seed(derived@, Slot::A), Slot::A),
        is_identity(pair.1@, slot_seed(derived@, Slot::B), Slot::B),
{
    (
        from_seed(derived.onion_seed_a.as_ref(), Slot::A),
        from_seed(derived.onion_seed_b.as_ref(), Slot::B),
    )
}

/// Derive just one slot's identity.
pub fn identity(derived: &Derived, slot: Slot) -> (id: OnionIdentity)
    ensures
        is_identity(id@, slot_seed(derived@, slot), slot),
{
    match slot {
        Slot::A => from_seed(derived.onion_seed_a.as_ref(), Slot::A),
        Slot::B => from_seed(derived.onion_seed_b.as_ref(), Slot::B),
    }
}

/// The other slot of the other slot is the slot itself, and the two differ.
pub proof fn law_slots_come_in_pairs(slot: Slot)
    ensures
        other_slot(other_slot(slot)) == slot,
        other_slot(slot) != slot,
{
}

/// The identity of slot A and the onion key of the same secrets have one
/// address: where two peers meet does not depend on which Tor engine each runs.
pub proof fn law_both_engines_meet_at_one_address(
    derived: crate::kdf::DerivedView,
    id: IdentityView,
    key: crate::onion::OnionKey,
)
    requires
        is_identity(id, slot_seed(derived, Slot::A), Slot::A),
        crate::onion::is_onion_key(key, derived.onion_seed_a),
    ensures
        id.address == key.address@,
{
}

/// Two peers that derived the same secrets find the same identity in each
/// slot, with nothing exchanged between them.
pub proof fn law_both_peers_find_the_same_identity(
    derived: crate::kdf::DerivedView,
    slot: Slot,
    mine: IdentityView,
    theirs: IdentityView,
)
    requires
        is_identity(mine, slot_seed(derived, slot), slot),
        is_identity(theirs, slot_seed(derived, slot), slot),
    ensures
        mine.address == theirs.address,
        mine.keypair == theirs.keypair,
{
}

/// Each slot has its own seed, and an identity is what its slot's seed makes:
/// the keypair of that seed, under the address of that seed's public key.
pub proof fn law_each_slot_has_its_own_seed(
    derived: crate::kdf::DerivedView,
    id: IdentityView,
    slot: Slot,
)
    requires
        is_identity(id, slot_seed(derived, slot), slot),
    ensures
        ({
            let seed = if slot == Slot::A {
                derived.onion_seed_a
            } else {
                derived.onion_seed_b
            };
            &&& id.slot == slot
            &&& id.keypair == keypair_of(seed)
            &&& id.address == crate::onion::onion_address_of(crate::onion::ed25519_public(seed))
        }),
{
}

} // verus!
