//! What an application supplies: primitives, settings, storage and decisions.

use vstd::prelude::*;

use crate::crypto::{Aes256Prp, AesGcmAead, HashSha512, P384KeyPair, P384PublicKey};
use crate::proto::RATCHET_SIZE;
use crate::ratchet_state::{RatchetState, RatchetView};

verus! {

/// What an application does with an incoming attempt to open a session.
#[derive(Debug, PartialEq, Eq, Structural, Clone, Copy)]
pub enum IncomingSessionAction {
    /// Proceed with the handshake.
    Allow,
    /// Proceed if the attempt answers a challenge, else send one.
    Challenge,
    /// Ignore the attempt.
    Drop,
}

/// Times, in milliseconds, and numbers of uses that govern sessions.
#[derive(Debug, Clone, Copy)]
pub struct Settings {
    /// How long to wait before a packet is sent again.
    pub retry_interval_ms: i64,
    /// How long a key exchange may take.
    pub expiration_timeout_ms: i64,
    /// How long a responder may take to confirm the first key.
    pub initial_offer_timeout_ms: i64,
    /// The bound on the random time after which a session is rekeyed.
    pub rekey_after_time_max_jitter_ms: i64,
    /// The number of uses of a key after which a session is rekeyed.
    pub rekey_after_uses: u64,
    /// The number of uses of a key after which a session expires.
    pub expire_after_uses: u64,
    /// How long an incomplete packet is kept.
    pub fragment_assembly_timeout: i64,
    /// How long an incoming handshake is kept.
    pub handshake_timeout: i64,
}

impl Settings {
    /// No time is negative, and the bound on the random time is positive.
    pub open spec fn valid(self) -> bool {
        &&& self.retry_interval_ms >= 0
        &&& self.expiration_timeout_ms >= 0
        &&& self.initial_offer_timeout_ms >= 0
        &&& self.rekey_after_time_max_jitter_ms > 0
        &&& self.fragment_assembly_timeout >= 0
        &&& self.handshake_timeout >= 0
    }

    /// Every time that is reckoned from `current_time` is one that a clock can show.
    pub open spec fn reckons_from(self, current_time: i64) -> bool {
        &&& current_time + self.retry_interval_ms <= i64::MAX
        &&& current_time + self.expiration_timeout_ms <= i64::MAX
        &&& current_time + self.initial_offer_timeout_ms <= i64::MAX
        &&& current_time + self.rekey_after_time_max_jitter_ms <= i64::MAX
        &&& current_time - self.rekey_after_time_max_jitter_ms >= i64::MIN
        &&& current_time + self.fragment_assembly_timeout <= i64::MAX
        &&& current_time + self.handshake_timeout <= i64::MAX
    }
}

/// The two ratchet states that are kept for a peer: the one to use, and one to fall back to.
/// Either may be missing.
pub struct RatchetStates {
    pub first: Option<RatchetState>,
    pub second: Option<RatchetState>,
}

/// What two ratchet states hold.
#[verifier::ext_equal]
pub struct RatchetStatesView {
    pub first: Option<RatchetView>,
    pub second: Option<RatchetView>,
}

impl View for RatchetStates {
    type V = RatchetStatesView;

    open spec fn view(&self) -> RatchetStatesView {
        RatchetStatesView {
            first: crate::ratchet_state::ratchet_view(self.first),
            second: crate::ratchet_state::ratchet_view(self.second),
        }
    }
}

/// An application that uses the library.
///
/// The callbacks decide for themselves what they answer, and may change the application. The
/// `may_..` functions relate what was asked to what was answered and to what the application became
/// by it. Nothing is known of them but what the callbacks say; an application in plain Rust leaves
/// them as they are. Where a contract says that the application comes out as it went in, no
/// callback was called, for any of them may change it. The settings are the exception: they are
/// only read, and no callback changes them.
pub trait ApplicationLayer: Sized {
    type PublicKey: P384PublicKey;

    type KeyPair: P384KeyPair<PublicKey = Self::PublicKey>;

    type Aead: AesGcmAead;

    type Prp: Aes256Prp;

    type Hash: HashSha512;

    /// An arbitrary application defined object associated with each session.
    type Data;

    closed spec fn settings_spec(&self) -> Settings {
        arbitrary()
    }

    /// `r` may be the ratchet states that were stored for a peer, and `after` the application once
    /// it has looked them up.
    closed spec fn may_restore_by_identity(
        &self,
        s_remote: Self::PublicKey,
        data: Self::Data,
        r: Result<RatchetStates, std::io::Error>,
        after: Self,
    ) -> bool {
        arbitrary()
    }

    /// `r` may be the ratchet state that was stored under a fingerprint, and `after` the
    /// application once it has looked it up.
    closed spec fn may_restore_by_fingerprint(
        &self,
        fingerprint: Seq<u8>,
        r: Result<Option<RatchetState>, std::io::Error>,
        after: Self,
    ) -> bool {
        arbitrary()
    }

    /// `r` may be what came of storing `new` in place of `current` for a peer, and `after` the
    /// application thereafter.
    closed spec fn may_save_ratchet_state(
        &self,
        s_remote: Self::PublicKey,
        data: Self::Data,
        current: RatchetStatesView,
        new: RatchetStatesView,
        r: Result<(), std::io::Error>,
        after: Self,
    ) -> bool {
        arbitrary()
    }

    /// `r` may say whether a hello must name a ratchet state that is known, and `after` be the
    /// application thereafter.
    closed spec fn may_require_ratchet(&self, r: bool, after: Self) -> bool {
        arbitrary()
    }

    /// `r` may say whether a responder must use a ratchet key that is known, and `after` be the
    /// application thereafter.
    closed spec fn may_disallow_downgrade(&self, r: bool, after: Self) -> bool {
        arbitrary()
    }

    /// `r` may be the decision on a peer who has shown this identity, and on what becomes of a
    /// refusal, and `after` the application thereafter.
    closed spec fn may_accept(
        &self,
        s_remote: Self::PublicKey,
        identity: Seq<u8>,
        r: (Option<(bool, Self::Data)>, bool),
        after: Self,
    ) -> bool {
        arbitrary()
    }

    /// `r` may be what to do with an incoming attempt to open a session, and `after` the
    /// application thereafter.
    closed spec fn may_take_incoming(&self, r: IncomingSessionAction, after: Self) -> bool {
        arbitrary()
    }

    fn settings(&self) -> (r: Settings)
        ensures
            r == self.settings_spec(),
    ;

    fn restore_by_identity(&mut self, s_remote: &Self::PublicKey, data: &Self::Data) -> (r: Result<
        RatchetStates,
        std::io::Error,
    >)
        ensures
            old(self).may_restore_by_identity(*s_remote, *data, r, *final(self)),
            final(self).settings_spec() == old(self).settings_spec(),
    ;

    fn restore_by_fingerprint(&mut self, fingerprint: &[u8; RATCHET_SIZE]) -> (r: Result<
        Option<RatchetState>,
        std::io::Error,
    >)
        ensures
            old(self).may_restore_by_fingerprint(fingerprint@, r, *final(self)),
            final(self).settings_spec() == old(self).settings_spec(),
    ;

    fn save_ratchet_state(
        &mut self,
        s_remote: &Self::PublicKey,
        data: &Self::Data,
        current: &RatchetStates,
        new: &RatchetStates,
    ) -> (r: Result<(), std::io::Error>)
        ensures
            old(self).may_save_ratchet_state(*s_remote, *data, current@, new@, r, *final(self)),
            final(self).settings_spec() == old(self).settings_spec(),
    ;

    fn hello_requires_recognized_ratchet(&mut self) -> (r: bool)
        ensures
            old(self).may_require_ratchet(r, *final(self)),
            final(self).settings_spec() == old(self).settings_spec(),
    ;

    fn initiator_disallows_downgrade(&mut self) -> (r: bool)
        ensures
            old(self).may_disallow_downgrade(r, *final(self)),
            final(self).settings_spec() == old(self).settings_spec(),
    ;

    /// Decides on a peer who has shown this identity. The first part is `None` where the peer is
    /// refused, or else says whether a ratchet state that is not stored for the peer is
    /// disallowed, and what goes with the session. The second part says what becomes of a refusal:
    /// where it is true a packet goes out that tells the peer of it, and ends the session of the
    /// peer; where it is false the peer is not told.
    fn check_accept_session(&mut self, s_remote: &Self::PublicKey, identity: &[u8]) -> (r: (
        Option<(bool, Self::Data)>,
        bool,
    ))
        ensures
            old(self).may_accept(*s_remote, identity@, r, *final(self)),
            final(self).settings_spec() == old(self).settings_spec(),
    ;

    fn incoming_session(&mut self) -> (r: IncomingSessionAction)
        ensures
            old(self).may_take_incoming(r, *final(self)),
            final(self).settings_spec() == old(self).settings_spec(),
    ;
}

} // verus!
