//! Ratchet keys, which tie each key exchange of two peers to the one before it.

use vstd::prelude::*;

use crate::crypto::secure_eq;
use crate::proto::RATCHET_SIZE;
use crate::secret::Secret;

verus! {

/// A ratchet key and fingerprint,
/// along with the length of the ratchet chain the keys were derived from.
pub struct RatchetState {
    pub key: Secret,
    pub fingerprint: Option<Secret>,
    pub chain_len: u64,
}

/// What a ratchet state holds.
#[verifier::ext_equal]
pub struct RatchetView {
    pub key: Seq<u8>,
    pub fingerprint: Option<Seq<u8>>,
    pub chain_len: u64,
}

/// What an optional secret holds.
pub open spec fn secret_view(s: Option<Secret>) -> Option<Seq<u8>> {
    match s {
        Some(s) => Some(s@),
        None => None,
    }
}

/// What an optional ratchet state holds.
pub open spec fn ratchet_view(s: Option<RatchetState>) -> Option<RatchetView> {
    match s {
        Some(s) => Some(s@),
        None => None,
    }
}

/// The ratchet state of two peers who share no secret: an all-zero key without a
/// fingerprint, at the start of its chain.
pub open spec fn empty_ratchet() -> RatchetView {
    RatchetView {
        key: Seq::new(RATCHET_SIZE as nat, |i: int| 0u8),
        fingerprint: None,
        chain_len: 0,
    }
}

/// The state that follows a chain of length `chain_len`.
pub open spec fn next_ratchet(key: Seq<u8>, fingerprint: Seq<u8>, chain_len: u64) -> RatchetView {
    RatchetView {
        key,
        fingerprint: Some(fingerprint),
        chain_len: if chain_len == u64::MAX { chain_len } else { (chain_len + 1) as u64 },
    }
}

impl View for RatchetState {
    type V = RatchetView;

    open spec fn view(&self) -> RatchetView {
        RatchetView {
            key: self.key@,
            fingerprint: secret_view(self.fingerprint),
            chain_len: self.chain_len,
        }
    }
}

/// A second copy of a ratchet state that may be missing.
pub fn clone_ratchet(s: &Option<RatchetState>) -> (r: Option<RatchetState>)
    ensures
        ratchet_view(r) == ratchet_view(*s),
{
    match s {
        Some(s) => Some(s.clone()),
        None => None,
    }
}

impl PartialEq for RatchetState {
    fn eq(&self, other: &Self) -> (r: bool) {
        let same_key = secure_eq(self.key.as_ref(), other.key.as_ref());
        let same_len = self.chain_len == other.chain_len;
        let same_fingerprint = match (&self.fingerprint, &other.fingerprint) {
            (Some(rf1), Some(rf2)) => secure_eq(rf1.as_ref(), rf2.as_ref()),
            (None, None) => true,
            _ => false,
        };
        same_key && same_len && same_fingerprint
    }
}

impl vstd::std_specs::cmp::PartialEqSpecImpl for RatchetState {
    open spec fn obeys_eq_spec() -> bool {
        true
    }

    open spec fn eq_spec(&self, other: &Self) -> bool {
        self@ == other@
    }
}

impl RatchetState {
    /// The state with this key and fingerprint.
    pub fn new(key: Secret, fingerprint: Secret, chain_len: u64) -> (r: RatchetState)
        ensures
            r@ == (RatchetView { key: key@, fingerprint: Some(fingerprint@), chain_len }),
    {
        RatchetState { key, fingerprint: Some(fingerprint), chain_len }
    }

    /// The state with this key and fingerprint.
    pub fn new_raw(
        key: [u8; RATCHET_SIZE],
        fingerprint: [u8; RATCHET_SIZE],
        chain_len: u64,
    ) -> (r: RatchetState)
        ensures
            r@ == (RatchetView { key: key@, fingerprint: Some(fingerprint@), chain_len }),
    {
        RatchetState {
            key: Secret::new(key),
            fingerprint: Some(Secret::new(fingerprint)),
            chain_len,
        }
    }

    /// The state of two peers who share no secret.
    pub fn empty() -> (r: RatchetState)
        ensures
            r@ == empty_ratchet(),
    {
        let r = RatchetState {
            key: Secret::new([0u8; RATCHET_SIZE]),
            fingerprint: None,
            chain_len: 0,
        };
        assert(r@ =~= empty_ratchet());
        r
    }

    /// The state that follows a chain of length `chain_len`. The length stops counting at
    /// its largest value.
    pub fn new_incr(key: Secret, fingerprint: Secret, chain_len: u64) -> (r: RatchetState)
        ensures
            r@ == next_ratchet(key@, fingerprint@, chain_len),
    {
        let next_len: u64 = if chain_len == u64::MAX { chain_len } else { chain_len + 1 };
        RatchetState::new(key, fingerprint, next_len)
    }

    /// The states that two peers begin with: an empty one, and no other.
    pub fn new_initial_states() -> (r: (RatchetState, Option<RatchetState>))
        ensures
            r.0@ == empty_ratchet(),
            r.1 is None,
    {
        (RatchetState::empty(), None)
    }

    /// Says whether the state has no fingerprint.
    pub fn is_empty(&self) -> (r: bool)
        ensures
            r <==> self@.fingerprint is None,
    {
        self.fingerprint.is_none()
    }

    /// Says whether the state has this fingerprint.
    pub fn fingerprint_eq(&self, rf: &[u8; RATCHET_SIZE]) -> (r: bool)
        ensures
            r <==> self@.fingerprint == Some(rf@),
    {
        match &self.fingerprint {
            Some(rf0) => secure_eq(rf0.as_ref(), rf),
            None => false,
        }
    }

    /// The fingerprint, where there is one.
    pub fn fingerprint(&self) -> (r: Option<&[u8; RATCHET_SIZE]>)
        ensures
            (match r {
                Some(rf) => Some(rf@),
                None => None,
            }) == self@.fingerprint,
    {
        match &self.fingerprint {
            Some(rf) => Some(rf.as_ref()),
            None => None,
        }
    }
}

impl Eq for RatchetState {
}

impl Clone for RatchetState {
    fn clone(&self) -> (r: Self)
        ensures
            r@ == self@,
    {
        RatchetState {
            key: self.key.clone(),
            fingerprint: match &self.fingerprint {
                Some(rf) => Some(rf.clone()),
                None => None,
            },
            chain_len: self.chain_len,
        }
    }
}

} // verus!
