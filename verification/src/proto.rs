//! Sizes, packet types and byte layouts shared by every layer of the protocol.

use vstd::prelude::*;

verus! {

/// Size of an AES-256 key.
pub const AES_256_KEY_SIZE: usize = 32;

/// Size of one AES block, the unit that header protection works on.
pub const AES_BLOCK_SIZE: usize = 16;

/// Size of an AES-GCM nonce.
pub const AES_GCM_IV_SIZE: usize = 12;

/// Size of an AES-GCM authentication tag.
pub const AES_GCM_TAG_SIZE: usize = 16;

/// Size of a SHA-512 digest.
pub const HASH_SIZE: usize = 64;

/// Size of a compressed NIST P-384 public key.
pub const P384_PUBLIC_KEY_SIZE: usize = 49;

/// Size of a Kyber-1024 public key.
pub const KYBER_PUBLICKEYBYTES: usize = 1568;

/// Size of a Kyber-1024 ciphertext.
pub const KYBER_CIPHERTEXTBYTES: usize = 1568;

/// Size of a Kyber-1024 secret key.
pub const KYBER_SECRETKEYBYTES: usize = 3168;

/// Size of the secret that a Kyber exchange yields.
pub const KYBER_SSBYTES: usize = 32;

/// Size of a ratchet key and of a ratchet fingerprint.
pub const RATCHET_SIZE: usize = 32;

/// Size of a key id inside a handshake payload.
pub const SESSION_ID_SIZE: usize = 4;

/// Size of the key id at the start of a header.
pub const KID_SIZE: usize = 4;

/// Offset of the fragment number in a header.
pub const FRAGMENT_NO_IDX: usize = 4;

/// Offset of the fragment count in a header.
pub const FRAGMENT_COUNT_IDX: usize = 5;

/// Offset of the packet nonce in a header.
pub const PACKET_NONCE_START: usize = 6;

/// Number of leading nonce bytes that are always zero and never travel.
pub const NONCE_SIZE_DIFF: usize = 2;

/// Size of a header.
pub const HEADER_SIZE: usize = 16;

/// Start of the block that header protection encrypts.
pub const HEADER_AUTH_START: usize = 4;

/// End of the block that header protection encrypts.
pub const HEADER_AUTH_END: usize = 20;

/// Size of the smallest well formed packet.
pub const MIN_PACKET_SIZE: usize = HEADER_SIZE + AES_GCM_TAG_SIZE;

/// The smallest MTU that is ever used for sending.
pub const MIN_TRANSPORT_MTU: usize = 128;

/// The largest number of fragments of one packet.
pub const MAX_FRAGMENTS: usize = 48;

/// The largest identity payload that an initiator may send.
pub const IDENTITY_MAX_SIZE: usize = 4096;

/// Size of a challenge and of its response.
pub const CHALLENGE_SIZE: usize = 32;

/// Number of slots of the window of received counters.
pub const COUNTER_WINDOW_MAX_OOO: usize = 32;

/// How far ahead of the window a counter may be.
pub const COUNTER_WINDOW_MAX_SKIP_AHEAD: u64 = 0x100_0000;

/// Number of packets that a session can reassemble at once.
pub const SESSION_MAX_FRAGMENTS_OOO: usize = 32;

/// Number of unassociated packets that a context can reassemble at once.
pub const MAX_UNASSOCIATED_PACKETS: usize = 32;

/// Number of incoming handshakes that a context keeps at once.
pub const MAX_UNASSOCIATED_HANDSHAKES: usize = 32;

/// The first counter that a responder sends with.
pub const INIT_COUNTER: u64 = 0;

pub const PACKET_TYPE_HANDSHAKE_HELLO: u8 = 0;

pub const PACKET_TYPE_HANDSHAKE_RESPONSE: u8 = 1;

pub const PACKET_TYPE_HANDSHAKE_COMPLETION: u8 = 2;

pub const PACKET_TYPE_KEY_CONFIRM: u8 = 3;

pub const PACKET_TYPE_ACK: u8 = 4;

pub const PACKET_TYPE_REKEY_INIT: u8 = 5;

pub const PACKET_TYPE_REKEY_COMPLETE: u8 = 6;

pub const PACKET_TYPE_SESSION_REJECTED: u8 = 7;

pub const PACKET_TYPE_DATA: u8 = 8;

pub const PACKET_TYPE_CHALLENGE: u8 = 9;

/// The first packet type whose counter goes through the replay window.
pub const PACKET_TYPE_USES_COUNTER_FIRST: u8 = PACKET_TYPE_KEY_CONFIRM;

/// The last packet type whose counter goes through the replay window.
pub const PACKET_TYPE_USES_COUNTER_LAST: u8 = PACKET_TYPE_DATA;

/// Size of a hello that offers no ratchet fingerprint.
pub const HANDSHAKE_HELLO_MIN_SIZE: usize = SESSION_ID_SIZE + P384_PUBLIC_KEY_SIZE
    + KYBER_PUBLICKEYBYTES + AES_GCM_TAG_SIZE + AES_GCM_TAG_SIZE;

/// Size of a hello that offers two ratchet fingerprints.
pub const HANDSHAKE_HELLO_MAX_SIZE: usize = HANDSHAKE_HELLO_MIN_SIZE + RATCHET_SIZE + RATCHET_SIZE;

/// Size of the smallest hello together with its challenge.
pub const HANDSHAKE_HELLO_CHALLENGE_MIN_SIZE: usize = HANDSHAKE_HELLO_MIN_SIZE + CHALLENGE_SIZE;

/// Size of the largest hello together with its challenge.
pub const HANDSHAKE_HELLO_CHALLENGE_MAX_SIZE: usize = HANDSHAKE_HELLO_MAX_SIZE + CHALLENGE_SIZE;

/// Size of a handshake response.
pub const HANDSHAKE_RESPONSE_SIZE: usize = P384_PUBLIC_KEY_SIZE + KYBER_CIPHERTEXTBYTES
    + AES_GCM_TAG_SIZE + SESSION_ID_SIZE + AES_GCM_TAG_SIZE;

/// Size of a handshake completion with an empty identity.
pub const HANDSHAKE_COMPLETION_MIN_SIZE: usize = P384_PUBLIC_KEY_SIZE + AES_GCM_TAG_SIZE
    + AES_GCM_TAG_SIZE;

/// Size of the largest handshake completion.
pub const HANDSHAKE_COMPLETION_MAX_SIZE: usize = P384_PUBLIC_KEY_SIZE + AES_GCM_TAG_SIZE
    + IDENTITY_MAX_SIZE + AES_GCM_TAG_SIZE;

/// Size of a key confirmation.
pub const KEY_CONFIRMATION_SIZE: usize = AES_GCM_TAG_SIZE;

/// Size of an acknowledgement.
pub const ACKNOWLEDGEMENT_SIZE: usize = AES_GCM_TAG_SIZE;

/// Size of a session rejection.
pub const SESSION_REJECTED_SIZE: usize = AES_GCM_TAG_SIZE;

/// Size of both rekeying packets.
pub const REKEY_SIZE: usize = P384_PUBLIC_KEY_SIZE + SESSION_ID_SIZE + AES_GCM_TAG_SIZE
    + AES_GCM_TAG_SIZE;

/// The initial hash of the handshake: its protocol name, padded with zeros.
pub const INITIAL_H: [u8; HASH_SIZE] = [
    78, 111, 105, 115, 101, 95, 88, 75, 104, 102, 115, 43, 112, 115, 107, 50, 95, 80, 51, 56, 52,
    43, 75, 121, 98, 101, 114, 49, 48, 50, 52, 95, 65, 69, 83, 71, 67, 77, 95, 83, 72, 65, 53, 49,
    50, 0, 0, 0, 0, 0, 0, 0, 0, 0, 0, 0, 0, 0, 0, 0, 0, 0, 0, 0,
];

/// The initial hash of rekeying: its protocol name, padded with zeros.
pub const INITIAL_H_REKEY: [u8; HASH_SIZE] = [
    78, 111, 105, 115, 101, 95, 75, 75, 112, 115, 107, 48, 95, 80, 51, 56, 52, 95, 65, 69, 83, 71,
    67, 77, 95, 83, 72, 65, 53, 49, 50, 0, 0, 0, 0, 0, 0, 0, 0, 0, 0, 0, 0, 0, 0, 0, 0, 0, 0, 0, 0,
    0, 0, 0, 0, 0, 0, 0, 0, 0, 0, 0, 0, 0,
];

/// Label of the chaining key derivation.
pub const LABEL_KBKDF_CHAIN: [u8; 4] = [90, 83, 83, 80];

/// Label of the ratchet key and fingerprint.
pub const LABEL_RATCHET_STATE: [u8; 4] = [65, 83, 75, 82];

/// Label of the header keys.
pub const LABEL_HEADER_KEY: [u8; 4] = [65, 83, 75, 72];

/// Label of the keys that protect control packets.
pub const LABEL_KEX_KEY: [u8; 4] = [65, 83, 75, 75];

/// The big endian bytes of `x`.
pub open spec fn u64_be(x: u64) -> Seq<u8> {
    seq![
        (x >> 56) as u8,
        (x >> 48) as u8,
        (x >> 40) as u8,
        (x >> 32) as u8,
        (x >> 24) as u8,
        (x >> 16) as u8,
        (x >> 8) as u8,
        x as u8,
    ]
}

/// The number whose big endian bytes are `s`.
pub open spec fn u64_of_be(s: Seq<u8>) -> u64 {
    (s[0] as u64) << 56 | (s[1] as u64) << 48 | (s[2] as u64) << 40 | (s[3] as u64) << 32 | (
    s[4] as u64) << 24 | (s[5] as u64) << 16 | (s[6] as u64) << 8 | (s[7] as u64)
}

/// The big endian bytes of `x`.
pub open spec fn u32_be(x: u32) -> Seq<u8> {
    seq![(x >> 24) as u8, (x >> 16) as u8, (x >> 8) as u8, x as u8]
}

/// The number whose big endian bytes are `s`.
pub open spec fn u32_of_be(s: Seq<u8>) -> u32 {
    (s[0] as u32) << 24 | (s[1] as u32) << 16 | (s[2] as u32) << 8 | (s[3] as u32)
}

/// Reading the big endian bytes of a number gives the number back.
pub proof fn lemma_u64_be_roundtrip(x: u64)
    ensures
        u64_of_be(u64_be(x)) == x,
{
    assert(((x >> 56) as u8 as u64) << 56 | ((x >> 48) as u8 as u64) << 48 | (
    (x >> 40) as u8 as u64) << 40 | ((x >> 32) as u8 as u64) << 32 | ((x >> 24) as u8 as u64) << 24
        | ((x >> 16) as u8 as u64) << 16 | ((x >> 8) as u8 as u64) << 8 | (x as u8 as u64) == x)
        by (bit_vector);
}

/// Reading the big endian bytes of a number gives the number back.
pub proof fn lemma_u32_be_roundtrip(x: u32)
    ensures
        u32_of_be(u32_be(x)) == x,
{
    assert(((x >> 24) as u8 as u32) << 24 | ((x >> 16) as u8 as u32) << 16 | (
    (x >> 8) as u8 as u32) << 8 | (x as u8 as u32) == x) by (bit_vector);
}

/// Three bytes spell a number below two to the twenty-fourth, of which they are the last bytes.
pub proof fn lemma_short_counter(s: Seq<u8>)
    requires
        s.len() == 3,
    ensures
        ({
            let c = u64_of_be(seq![0u8, 0u8, 0u8, 0u8, 0u8] + s);
            c < 0x100_0000 && u64_be(c).subrange(5, 8) == s
        }),
{
    let x = s[0];
    let y = s[1];
    let z = s[2];
    let c = u64_of_be(seq![0u8, 0u8, 0u8, 0u8, 0u8] + s);
    let zero = 0u8;
    assert(c == (zero as u64) << 56 | (zero as u64) << 48 | (zero as u64) << 40 | (zero as u64)
        << 32 | (zero as u64) << 24 | (x as u64) << 16 | (y as u64) << 8 | (z as u64));
    assert(c < 0x100_0000 && (c >> 16) as u8 == x && (c >> 8) as u8 == y && c as u8 == z)
        by (bit_vector)
        requires
            zero == 0,
            c == (zero as u64) << 56 | (zero as u64) << 48 | (zero as u64) << 40 | (zero as u64)
                << 32 | (zero as u64) << 24 | (x as u64) << 16 | (y as u64) << 8 | (z as u64),
    ;
    assert(u64_be(c).subrange(5, 8) =~= s);
}

/// The big endian bytes of `x`.
pub fn u64_to_be_bytes(x: u64) -> (r: [u8; 8])
    ensures
        r@ == u64_be(x),
{
    let r: [u8; 8] = [
        #[verifier::truncate] ((x >> 56) as u8),
        #[verifier::truncate] ((x >> 48) as u8),
        #[verifier::truncate] ((x >> 40) as u8),
        #[verifier::truncate] ((x >> 32) as u8),
        #[verifier::truncate] ((x >> 24) as u8),
        #[verifier::truncate] ((x >> 16) as u8),
        #[verifier::truncate] ((x >> 8) as u8),
        #[verifier::truncate] (x as u8),
    ];
    assert(r@ =~= u64_be(x));
    r
}

/// The number whose big endian bytes are the eight bytes of `s`.
pub fn u64_from_be_bytes(s: &[u8]) -> (r: u64)
    requires
        s@.len() == 8,
    ensures
        r == u64_of_be(s@),
{
    (s[0] as u64) << 56 | (s[1] as u64) << 48 | (s[2] as u64) << 40 | (s[3] as u64) << 32 | (
    s[4] as u64) << 24 | (s[5] as u64) << 16 | (s[6] as u64) << 8 | (s[7] as u64)
}

/// The big endian bytes of `x`.
pub fn u32_to_be_bytes(x: u32) -> (r: [u8; 4])
    ensures
        r@ == u32_be(x),
{
    let r: [u8; 4] = [
        #[verifier::truncate] ((x >> 24) as u8),
        #[verifier::truncate] ((x >> 16) as u8),
        #[verifier::truncate] ((x >> 8) as u8),
        #[verifier::truncate] (x as u8),
    ];
    assert(r@ =~= u32_be(x));
    r
}

/// The number whose big endian bytes are the four bytes of `s`.
pub fn u32_from_be_bytes(s: &[u8]) -> (r: u32)
    requires
        s@.len() == 4,
    ensures
        r == u32_of_be(s@),
{
    (s[0] as u32) << 24 | (s[1] as u32) << 16 | (s[2] as u32) << 8 | (s[3] as u32)
}

/// The number that the four bytes of `s` stand for in the byte order of one of the two
/// kinds of machine: most significant byte first, or last.
pub open spec fn native_u32(x: u32, s: Seq<u8>) -> bool {
    x == u32_of_be(s) || x == u32_of_be(s.reverse())
}

/// Calls `u32::from_ne_bytes`, which reads a number from its memory representation.
/// Which of the two byte orders that is depends on the machine, so the contract only says
/// that it is one of them.
#[verifier::external_body]
pub(crate) fn u32_from_ne_bytes(s: [u8; 4]) -> (r: u32)
    ensures
        native_u32(r, s@),
{
    u32::from_ne_bytes(s)
}

/// Calls `u32::to_ne_bytes`, which gives the memory representation of a number.
/// Which of the two byte orders that is depends on the machine, so the contract only says
/// that it is one of them.
#[verifier::external_body]
pub(crate) fn u32_to_ne_bytes(x: u32) -> (r: [u8; 4])
    ensures
        r@ == u32_be(x) || r@ == u32_be(x).reverse(),
{
    x.to_ne_bytes()
}

} // verus!
