use rand_core::OsRng;
use zssp::bytes::{append, array_at, part, same};
use zssp::crypto::secure_eq;
use zssp::fragged::Fragged;
use zssp::frag_cache::UnassociatedFragCache;
use zssp::kyber::{kyber_decapsulate, kyber_encapsulate, kyber_keypair};
use zssp::packet_buffer::{gather, gather_bounded};
use zssp::proto::{
    u32_from_be_bytes, u32_to_be_bytes, u64_from_be_bytes, u64_to_be_bytes,
    COUNTER_WINDOW_MAX_SKIP_AHEAD, HANDSHAKE_COMPLETION_MAX_SIZE, KYBER_CIPHERTEXTBYTES,
    KYBER_PUBLICKEYBYTES, KYBER_SECRETKEYBYTES, MAX_UNASSOCIATED_PACKETS,
};
use zssp::ratchet_state::RatchetState;
use zssp::result::{
    error_of, fault, ByzantineFault, ExpiredError, FaultType, OpenError, ReceiveError, SendError,
    SessionHandle, ZetaError, FAULT_EXPIRED_COUNTER, FAULT_HELLO_AUTH, FAULT_HELLO_STAGE,
    FAULT_REKEY_AUTH, FAULT_REKEY_STAGE,
};
use zssp::secret::{Secret, SecretVec};
use zssp::session_queue::SessionQueue;
use zssp::window::Window;
use zssp::wire::{count_fragments, from_nonce, header, parse_fragment_header};
use zssp::zeta::confirm::jitter;
use zssp::zeta::nonce;

const CLOSED: FaultType = FaultType::FailedAuth;

fn io_error(text: &str) -> std::io::Error {
    std::io::Error::new(std::io::ErrorKind::Other, text.to_string())
}

#[test]
fn big_endian_numbers() {
    assert_eq!(u64_to_be_bytes(0x0102030405060708), [1, 2, 3, 4, 5, 6, 7, 8]);
    assert_eq!(u64_from_be_bytes(&[0, 0, 0, 0, 0, 1, 0, 2]), 0x10002);
    assert_eq!(u32_to_be_bytes(0xdeadbeef), [0xde, 0xad, 0xbe, 0xef]);
    assert_eq!(u32_from_be_bytes(&[0xde, 0xad, 0xbe, 0xef]), 0xdeadbeef);
}

#[test]
fn nonce_carries_type_and_counter() {
    let n = nonce(8, 0x0102030405060708);
    assert_eq!(n, [0, 0, 0, 8, 1, 2, 3, 4, 5, 6, 7, 8]);
    assert_eq!(from_nonce(&n), (8, 0x0102030405060708));
    assert_ne!(nonce(8, 1), nonce(8, 2));
    assert_ne!(nonce(7, 1), nonce(8, 1));
}

#[test]
fn parts_of_byte_strings() {
    let s: [u8; 5] = [1, 2, 3, 4, 5];
    assert_eq!(part(&s, 1, 4), vec![2, 3, 4]);
    assert_eq!(array_at::<2>(&s, 3), [4, 5]);
    let mut v: Vec<u8> = vec![9];
    append(&mut v, &s);
    assert_eq!(v, vec![9, 1, 2, 3, 4, 5]);
    assert!(same(&[1, 2], &[1, 2]));
    assert!(!same(&[1, 2], &[1, 3]));
    assert!(!same(&[1, 2], &[1]));
}

#[test]
fn secrets_hold_their_bytes() {
    let mut bytes: [u8; 32] = [7; 32];
    bytes[31] = 1;
    let s = Secret::new(bytes);
    assert_eq!(*s.as_ref(), bytes);
    assert_eq!(*s.clone().as_ref(), bytes);
    let v = SecretVec::new(vec![1, 2, 3]);
    assert_eq!(v.as_slice(), &[1, 2, 3]);
    assert_eq!(v.clone().as_slice(), &[1, 2, 3]);
    let mut other: [u8; 32] = bytes;
    assert!(secure_eq(&bytes, &other));
    other[0] = 8;
    assert!(!secure_eq(&bytes, &other));
}

#[test]
fn kyber_secret_comes_back() {
    let mut rng = OsRng;
    let pair = kyber_keypair(&mut rng);
    assert_eq!(pair.public.len(), KYBER_PUBLICKEYBYTES);
    assert_eq!(pair.secret.as_slice().len(), KYBER_SECRETKEYBYTES);
    let (ct, secret) = kyber_encapsulate(&pair.public, &mut rng).unwrap();
    assert_eq!(ct.len(), KYBER_CIPHERTEXTBYTES);
    let opened = kyber_decapsulate(&ct, &pair.secret).unwrap();
    assert_eq!(opened.as_ref(), secret.as_ref());
}

#[test]
fn kyber_refuses_what_does_not_fit() {
    let mut rng = OsRng;
    let pair = kyber_keypair(&mut rng);
    assert!(kyber_encapsulate(&pair.public[1..], &mut rng).is_none());
    let (mut ct, _) = kyber_encapsulate(&pair.public, &mut rng).unwrap();
    assert!(kyber_decapsulate(&ct[1..], &pair.secret).is_none());
    ct[0] ^= 1;
    assert!(kyber_decapsulate(&ct, &pair.secret).is_none());
}

#[test]
fn ratchet_states() {
    let a = RatchetState::new_raw([1; 32], [2; 32], 5);
    let b = RatchetState::new(Secret::new([1; 32]), Secret::new([2; 32]), 5);
    assert!(a == b);
    assert!(a == a.clone());
    assert!(a != RatchetState::new_raw([3; 32], [2; 32], 5));
    assert!(a != RatchetState::new_raw([1; 32], [3; 32], 5));
    assert!(a != RatchetState::new_raw([1; 32], [2; 32], 6));
    assert!(a.fingerprint_eq(&[2; 32]));
    assert!(!a.fingerprint_eq(&[1; 32]));
    assert_eq!(a.fingerprint(), Some(&[2u8; 32]));
    assert!(!a.is_empty());
}

#[test]
fn empty_ratchet_states() {
    let (first, second) = RatchetState::new_initial_states();
    assert!(first == RatchetState::empty());
    assert!(second.is_none());
    assert!(first.is_empty());
    assert_eq!(*first.key.as_ref(), [0u8; 32]);
    assert_eq!(first.chain_len, 0);
    assert!(first.fingerprint().is_none());
    assert!(!first.fingerprint_eq(&[0; 32]));
    assert!(first != RatchetState::new_raw([0; 32], [0; 32], 0));
}

#[test]
fn ratchet_chain_stops_counting() {
    let next = RatchetState::new_incr(Secret::new([1; 32]), Secret::new([2; 32]), 7);
    assert_eq!(next.chain_len, 8);
    let last = RatchetState::new_incr(Secret::new([1; 32]), Secret::new([2; 32]), u64::MAX);
    assert_eq!(last.chain_len, u64::MAX);
}

#[test]
fn error_messages() {
    assert_eq!(SendError::MtuTooSmall.message(), "mtu too small");
    assert_eq!(SendError::SessionExpired.message(), "session has expired");
    assert_eq!(SendError::SessionNotEstablished.message(), "session not established");
    assert_eq!(SendError::DataTooLarge.message(), "data too large");
    assert_eq!(FaultType::UnknownLocalKeyId.message(), "packet contained an unknown key id");
    assert_eq!(FaultType::InvalidPacket.message(), "invalid packet received");
    assert_eq!(FaultType::FailedAuth.message(), "packet failed authentication");
    assert_eq!(FaultType::ExpiredCounter.message(), "packet used an expired counter");
    assert_eq!(FaultType::OutOfSequence.message(), "packet arrived out of sequence");
    assert_eq!(ExpiredError(SessionHandle { index: 3 }).message(), "session expired");
    assert_eq!(OpenError::IdentityTooLarge.message(), "identity too large");
    assert_eq!(OpenError::InvalidPublicKey.message(), "invalid public key");
    assert_eq!(OpenError::StorageError(io_error("no disk")).message(), "no disk");
    assert_eq!(ReceiveError::Rejected.message(), "attempt to establish session rejected");
    let handle = SessionHandle { index: 1 };
    assert_eq!(
        ReceiveError::MaxKeyLifetimeExceeded(handle).message(),
        "max key lifetime exceeded"
    );
    assert_eq!(ReceiveError::StorageError(io_error("no disk")).message(), "no disk");
    assert_eq!(ReceiveError::WriteError(io_error("full"), handle).message(), "full");
}

#[test]
fn fault_says_where_it_was_met() {
    let f = ByzantineFault {
        session: None,
        caused_expiration: false,
        error: FaultType::InvalidPacket,
        unnatural: true,
        file: "src/lib.rs",
        line: 1207,
    };
    assert_eq!(f.file(), "src/lib.rs");
    assert_eq!(f.line(), 1207);
    assert_eq!(f.message(), "invalid packet received (src/lib.rs:1207)");
    assert_eq!(
        ReceiveError::ByzantineFault(f).message(),
        "invalid packet received (src/lib.rs:1207)"
    );
}

#[test]
fn causes_become_errors() {
    let handle = SessionHandle { index: 4 };
    match error_of(
        ZetaError::FailedAuthentication,
        Some(handle),
        FAULT_REKEY_AUTH,
        FAULT_REKEY_STAGE,
    ) {
        ReceiveError::ByzantineFault(f) => {
            assert_eq!(f.error, CLOSED);
            assert!(f.unnatural);
            assert_eq!(f.session, Some(handle));
            assert!(!f.caused_expiration);
            assert_eq!(f.line(), FAULT_REKEY_AUTH);
            assert_eq!(f.file(), "src/session.rs");
        }
        _ => panic!("not a fault"),
    }
    match error_of(ZetaError::OutOfSequence, None, FAULT_HELLO_AUTH, FAULT_HELLO_STAGE) {
        ReceiveError::ByzantineFault(f) => {
            assert_eq!(f.error, FaultType::OutOfSequence);
            assert!(!f.unnatural);
            assert_eq!(f.session, None);
            assert_eq!(f.line(), FAULT_HELLO_STAGE);
            assert_eq!(f.file(), "src/context/receive.rs");
        }
        _ => panic!("not a fault"),
    }
    assert!(matches!(
        error_of(ZetaError::RatchetIoError(io_error("x")), None, 1, 2),
        ReceiveError::StorageError(_)
    ));
    assert!(matches!(error_of(ZetaError::Rejected, None, 1, 2), ReceiveError::Rejected));
    assert!(matches!(
        fault(FaultType::ExpiredCounter, false, None, FAULT_EXPIRED_COUNTER),
        ReceiveError::ByzantineFault(_)
    ));
}

#[test]
fn window_takes_each_counter_once() {
    let mut w = Window::new();
    assert!(w.check(0));
    assert!(w.update(0));
    assert!(!w.check(0));
    assert!(!w.update(0));
    assert!(w.update(5));
    assert!(w.update(3));
    assert!(!w.update(5));
    // The slot of 0 is taken by 32, and whatever is older than that is gone.
    assert!(w.update(32));
    assert!(!w.check(0));
    assert!(!w.check(32));
    assert!(w.check(64));
}

#[test]
fn window_does_not_skip_ahead() {
    let mut w = Window::new();
    assert!(w.check(COUNTER_WINDOW_MAX_SKIP_AHEAD - 1));
    assert!(!w.check(COUNTER_WINDOW_MAX_SKIP_AHEAD));
    assert!(!w.check(u64::MAX));
    assert!(!w.update(u64::MAX));
}

#[test]
fn header_has_kid_and_nonce() {
    let h = header(0x01020304, &nonce(8, 0x0a0b));
    let mut expected: Vec<u8> = 0x01020304u32.to_ne_bytes().to_vec();
    expected.extend([0, 0, 0, 8, 0, 0, 0, 0, 0, 0, 0x0a, 0x0b]);
    assert_eq!(h, expected);
}

#[test]
fn fragment_header_is_read() {
    let mut f: Vec<u8> = header(1, &nonce(5, 77));
    f[4] = 2;
    f[5] = 3;
    let (no, count, n) = parse_fragment_header(&f, None).unwrap();
    assert_eq!((no, count), (2, 3));
    assert_eq!(n, nonce(5, 77));
}

#[test]
fn fragment_header_is_refused() {
    let handle = SessionHandle { index: 0 };
    for (no, count) in [(0u8, 0u8), (3, 3), (4, 3), (0, 49)] {
        let mut f: Vec<u8> = header(1, &nonce(5, 77));
        f[4] = no;
        f[5] = count;
        match parse_fragment_header(&f, Some(handle)) {
            Err(ReceiveError::ByzantineFault(fault)) => {
                assert_eq!(fault.error, FaultType::InvalidPacket);
                assert!(fault.unnatural);
                assert_eq!(fault.session, Some(handle));
            }
            _ => panic!("not refused"),
        }
    }
    let mut f: Vec<u8> = header(1, &nonce(5, 77));
    f[4] = 47;
    f[5] = 48;
    assert!(parse_fragment_header(&f, None).is_ok());
}

#[test]
fn fragments_are_counted() {
    assert_eq!(count_fragments(1, 112), 1);
    assert_eq!(count_fragments(112, 112), 1);
    assert_eq!(count_fragments(113, 112), 2);
    assert_eq!(count_fragments(usize::MAX, 2), usize::MAX / 2);
}

fn fragment(payload: &[u8]) -> Vec<u8> {
    let mut f: Vec<u8> = vec![0; 16];
    f.extend(payload);
    f
}

#[test]
fn payloads_are_gathered() {
    let fragments: Vec<Vec<u8>> = vec![fragment(&[1, 2]), fragment(&[]), fragment(&[3])];
    assert_eq!(gather(&fragments), vec![1, 2, 3]);
    assert_eq!(gather_bounded(&fragments, 3), Some(vec![1, 2, 3]));
    assert_eq!(gather_bounded(&fragments, 2), None);
    let empty: Vec<Vec<u8>> = Vec::new();
    assert_eq!(gather_bounded(&empty, 0), Some(Vec::new()));
    let large: Vec<Vec<u8>> = vec![fragment(&[7; HANDSHAKE_COMPLETION_MAX_SIZE])];
    assert_eq!(
        gather_bounded(&large, HANDSHAKE_COMPLETION_MAX_SIZE).unwrap().len(),
        HANDSHAKE_COMPLETION_MAX_SIZE
    );
}

#[test]
fn fragments_come_in_any_order() {
    let n = nonce(8, 1);
    let mut f = Fragged::new();
    assert!(f.assemble(&n, fragment(&[3]), 2, 3).is_none());
    assert!(f.assemble(&n, fragment(&[1]), 0, 3).is_none());
    // A fragment that is there already does not replace what was there.
    assert!(f.assemble(&n, fragment(&[9]), 0, 3).is_none());
    // Nor is one taken that disagrees on the number of fragments.
    assert!(f.assemble(&n, fragment(&[9]), 1, 4).is_none());
    let all = f.assemble(&n, fragment(&[2]), 1, 3).unwrap();
    assert_eq!(all, vec![fragment(&[1]), fragment(&[2]), fragment(&[3])]);
    // It starts over afterwards.
    assert!(f.assemble(&n, fragment(&[2]), 1, 3).is_none());
}

#[test]
fn another_packet_takes_the_place() {
    let mut f = Fragged::new();
    assert!(f.assemble(&nonce(8, 1), fragment(&[1]), 0, 2).is_none());
    assert!(f.assemble(&nonce(8, 33), fragment(&[4]), 1, 2).is_none());
    let all = f.assemble(&nonce(8, 33), fragment(&[3]), 0, 2).unwrap();
    assert_eq!(all, vec![fragment(&[3]), fragment(&[4])]);
    assert!(f.assemble(&nonce(8, 1), fragment(&[2]), 1, 2).is_none());
}

#[test]
fn unassociated_fragments_are_kept_apart() {
    let n = nonce(0, 1);
    let mut cache = UnassociatedFragCache::new();
    assert!(cache.assemble(&n, b"a", fragment(&[1]), 0, 2, 10).is_none());
    assert!(cache.assemble(&n, b"b", fragment(&[2]), 1, 2, 10).is_none());
    let all = cache.assemble(&n, b"a", fragment(&[3]), 1, 2, 10).unwrap();
    assert_eq!(all, vec![fragment(&[1]), fragment(&[3])]);
    let all = cache.assemble(&n, b"b", fragment(&[4]), 0, 2, 10).unwrap();
    assert_eq!(all, vec![fragment(&[4]), fragment(&[2])]);
}

#[test]
fn unassociated_fragments_expire() {
    let n = nonce(0, 1);
    let mut cache = UnassociatedFragCache::new();
    assert!(cache.assemble(&n, b"a", fragment(&[1]), 0, 2, 10).is_none());
    assert!(cache.assemble(&n, b"b", fragment(&[2]), 0, 2, 20).is_none());
    cache.check_for_expiry(15);
    assert!(cache.assemble(&n, b"a", fragment(&[3]), 1, 2, 30).is_none());
    assert!(cache.assemble(&n, b"b", fragment(&[4]), 1, 2, 30).is_some());
}

#[test]
fn oldest_unassociated_packet_is_dropped() {
    let mut cache = UnassociatedFragCache::new();
    let count: u64 = MAX_UNASSOCIATED_PACKETS as u64 + 1;
    for c in 0..count {
        assert!(cache.assemble(&nonce(0, c), b"a", fragment(&[1]), 0, 2, 10).is_none());
    }
    assert!(cache.assemble(&nonce(0, 1), b"a", fragment(&[2]), 1, 2, 10).is_some());
    assert!(cache.assemble(&nonce(0, 0), b"a", fragment(&[2]), 1, 2, 10).is_none());
}

#[test]
fn queue_gives_the_first_timer() {
    let mut q = SessionQueue::new();
    assert_eq!(q.peek(), None);
    q.insert(0, 30);
    q.insert(1, 10);
    q.insert(2, 20);
    assert_eq!(q.peek(), Some(1));
    q.change_priority(1, 25);
    assert_eq!(q.peek(), Some(2));
    q.remove(2);
    assert_eq!(q.entries, vec![(30, 0), (25, 1)]);
}

#[test]
fn jitter_has_the_sign_of_the_draw() {
    assert_eq!(jitter(17, 10), 7);
    assert_eq!(jitter(u64::MAX, 10), -1);
    assert_eq!(jitter(1 << 63, 10), -8);
    assert_eq!(jitter(20, 10), 0);
    assert_eq!(jitter(i64::MAX as u64, i64::MAX), 0);
}
