//! Challenges, by which a peer shows that it can be reached at its address before work is done
//! for it.

use rand_core::OsRng;
use vstd::prelude::*;

use crate::application::ApplicationLayer;
use crate::bytes::array_at;
use crate::crypto::{secure_eq, HashSha512};
use crate::proto::{u64_be, u64_to_be_bytes, CHALLENGE_SIZE};
use crate::random::random_u64;
use crate::secret::Secret;

verus! {

/// The challenge for an address: a keyed hash of it.
pub open spec fn challenge_for<App: ApplicationLayer>(salt: Seq<u8>, address: Seq<u8>) -> Seq<u8> {
    App::Hash::mac(salt, address).subrange(0, CHALLENGE_SIZE as int)
}

/// The key for challenges that four random numbers give: their bytes one after the other, the most
/// significant byte of each first.
pub open spec fn challenge_key(a: u64, b: u64, c: u64, d: u64) -> Seq<u8> {
    u64_be(a) + u64_be(b) + u64_be(c) + u64_be(d)
}

/// What makes the challenges of a context, and knows the ones that it has made.
pub struct ChallengeContext {
    salt: Secret,
}

impl View for ChallengeContext {
    type V = Seq<u8>;

    closed spec fn view(&self) -> Seq<u8> {
        self.salt@
    }
}

impl ChallengeContext {
    /// Draws a key for challenges: four random numbers, of which nothing is known.
    pub fn new(rng: &mut OsRng) -> (r: ChallengeContext)
        ensures
            exists|a: u64, b: u64, c: u64, d: u64| r@ == #[trigger] challenge_key(a, b, c, d),
    {
        let a: u64 = random_u64(rng);
        let b: u64 = random_u64(rng);
        let c: u64 = random_u64(rng);
        let d: u64 = random_u64(rng);
        Self::from_draws(a, b, c, d)
    }

    /// Makes challenges with the key that these random numbers give.
    pub fn from_draws(a: u64, b: u64, c: u64, d: u64) -> (r: ChallengeContext)
        ensures
            r@ == challenge_key(a, b, c, d),
    {
        let a = u64_to_be_bytes(a);
        let b = u64_to_be_bytes(b);
        let c = u64_to_be_bytes(c);
        let d = u64_to_be_bytes(d);
        let salt: [u8; CHALLENGE_SIZE] = [
            a[0], a[1], a[2], a[3], a[4], a[5], a[6], a[7],
            b[0], b[1], b[2], b[3], b[4], b[5], b[6], b[7],
            c[0], c[1], c[2], c[3], c[4], c[5], c[6], c[7],
            d[0], d[1], d[2], d[3], d[4], d[5], d[6], d[7],
        ];
        assert(salt@ =~= a@ + b@ + c@ + d@);
        ChallengeContext { salt: Secret::new(salt) }
    }

    /// Says whether `response` answers the challenge for this address. If it does not, the
    /// challenge comes back.
    pub fn process_hello<App: ApplicationLayer>(
        &self,
        address: &[u8],
        response: &[u8; CHALLENGE_SIZE],
    ) -> (r: Result<(), [u8; CHALLENGE_SIZE]>)
        ensures
            match r {
                Ok(_) => response@ == challenge_for::<App>(self@, address@),
                Err(challenge) => response@ != challenge_for::<App>(self@, address@)
                    && challenge@ == challenge_for::<App>(self@, address@),
            },
    {
        let mac = App::Hash::hmac(self.salt.as_ref().as_slice(), address);
        let challenge = array_at::<CHALLENGE_SIZE>(mac.as_slice(), 0);
        if secure_eq(&challenge, response) {
            Ok(())
        } else {
            Err(challenge)
        }
    }
}

} // verus!
