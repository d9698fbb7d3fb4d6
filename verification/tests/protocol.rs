use std::cell::Cell;
use std::marker::PhantomData;

use rand_core::{OsRng, RngCore};
use zssp::application::{ApplicationLayer, IncomingSessionAction, RatchetStates, Settings};
use zssp::challenge::ChallengeContext;
use zssp::context::receive::Received;
use zssp::context::Context;
use zssp::crypto::{Aes256Prp, AesGcmAead, HashSha512, P384KeyPair, P384PublicKey};
use zssp::outgoing::Outgoing;
use zssp::proto::{
    CHALLENGE_SIZE, IDENTITY_MAX_SIZE, INITIAL_H, LABEL_RATCHET_STATE, MIN_PACKET_SIZE,
    PACKET_TYPE_ACK, PACKET_TYPE_CHALLENGE, PACKET_TYPE_DATA, PACKET_TYPE_HANDSHAKE_COMPLETION,
    PACKET_TYPE_HANDSHAKE_HELLO, PACKET_TYPE_HANDSHAKE_RESPONSE, PACKET_TYPE_KEY_CONFIRM,
    PACKET_TYPE_REKEY_COMPLETE, PACKET_TYPE_REKEY_INIT, PACKET_TYPE_SESSION_REJECTED,
};
use zssp::ratchet_state::RatchetState;
use zssp::result::{
    FaultType, OpenError, ReceiveError, ReceiveOk, SendError, SessionEvent, SessionHandle,
    ZetaError, FAULT_ACKNOWLEDGEMENT_STAGE, FAULT_CONFIRMATION_AUTH, FAULT_DATA_AUTH,
    FAULT_EXPIRED_COUNTER, FAULT_KEY_ID,
};
use zssp::secret::{Secret, SecretVec};
use zssp::session::Session;
use zssp::symmetric_state::SymmetricState;
use zssp::wire::{from_nonce, header, send_with_fragmentation, unprotect};
use zssp::zeta::hello::StateB2;
use zssp::zeta::{nonce, Packet, Zeta, ZsspAutomata};

const KID_A: u32 = 0x01020304;
const KID_B: u32 = 0x05060708;
const KID_C: u32 = 0x090a0b0c;
const KID_D: u32 = 0x0d0e0f10;

#[derive(Clone, Copy, Debug, PartialEq)]
struct ToyPublic([u8; 49]);

impl P384PublicKey for ToyPublic {
    fn from_bytes(bytes: &[u8; 49]) -> Option<Self> {
        if bytes[0] == 2 {
            Some(ToyPublic(*bytes))
        } else {
            None
        }
    }
    fn to_bytes(&self) -> [u8; 49] {
        self.0
    }
}

#[derive(Clone, Copy, Debug)]
struct ToyPair {
    secret: u64,
}

impl ToyPair {
    fn public(&self) -> ToyPublic {
        let mut bytes: [u8; 49] = [0; 49];
        bytes[0] = 2;
        bytes[1..9].copy_from_slice(&self.secret.to_be_bytes());
        ToyPublic(bytes)
    }
}

impl P384KeyPair for ToyPair {
    type PublicKey = ToyPublic;
    fn generate(rng: &mut OsRng) -> Self {
        ToyPair { secret: rng.next_u64() | 1 }
    }
    fn public_key_bytes(&self) -> [u8; 49] {
        self.public().0
    }
    fn agree(&self, remote: &ToyPublic) -> Option<SecretVec> {
        let r: u64 = u64::from_be_bytes(remote.0[1..9].try_into().unwrap());
        if r == 0 {
            return None;
        }
        Some(SecretVec::new(self.secret.wrapping_mul(r).to_be_bytes().to_vec()))
    }
}

fn mix(parts: &[&[u8]]) -> u64 {
    let mut h: u64 = 0xcbf29ce484222325;
    for p in parts {
        for b in p.iter() {
            h = (h ^ *b as u64).wrapping_mul(0x100000001b3);
        }
        h = (h ^ 0x5a).wrapping_mul(0x100000001b3).rotate_left(17);
    }
    h
}

/// A cipher that depends on everything it is given.
struct StrictAead;

impl AesGcmAead for StrictAead {
    fn encrypt_in_place(
        key: &[u8; 32],
        nonce: &[u8; 12],
        aad: &[u8],
        data: &mut Vec<u8>,
    ) -> [u8; 16] {
        for (i, b) in data.iter_mut().enumerate() {
            *b ^= mix(&[key, nonce, &i.to_be_bytes()]) as u8;
        }
        let mut tag: [u8; 16] = [0; 16];
        tag[..8].copy_from_slice(&mix(&[key, nonce, aad, data, b"1"]).to_be_bytes());
        tag[8..].copy_from_slice(&mix(&[key, nonce, aad, data, b"2"]).to_be_bytes());
        tag
    }
    fn decrypt_in_place(
        key: &[u8; 32],
        nonce: &[u8; 12],
        aad: &[u8],
        data: &mut Vec<u8>,
        tag: &[u8; 16],
    ) -> bool {
        let first: u64 = mix(&[key, nonce, aad, data, b"1"]);
        let second: u64 = mix(&[key, nonce, aad, data, b"2"]);
        if tag[..8] != first.to_be_bytes() || tag[8..] != second.to_be_bytes() {
            return false;
        }
        for (i, b) in data.iter_mut().enumerate() {
            *b ^= mix(&[key, nonce, &i.to_be_bytes()]) as u8;
        }
        true
    }
}

struct ToyPrp;

impl Aes256Prp for ToyPrp {
    fn encrypt_in_place(key: &[u8; 32], block: &mut [u8; 16]) {
        for i in 0..16 {
            block[i] = block[i].wrapping_add(key[i]).rotate_left(3);
        }
    }
    fn decrypt_in_place(key: &[u8; 32], block: &mut [u8; 16]) {
        for i in 0..16 {
            block[i] = block[i].rotate_right(3).wrapping_sub(key[i]);
        }
    }
}

struct ToyHash;

impl HashSha512 for ToyHash {
    fn hash(data: &[u8]) -> [u8; 64] {
        let mut r: [u8; 64] = [0; 64];
        for i in 0..8 {
            let word: u64 = mix(&[data, &[i as u8]]);
            r[8 * i..8 * i + 8].copy_from_slice(&word.to_be_bytes());
        }
        r
    }
    fn hmac(key: &[u8], data: &[u8]) -> [u8; 64] {
        let mut all: Vec<u8> = key.to_vec();
        all.extend(data);
        Self::hash(&all)
    }
}

struct Toy<A> {
    states: Vec<Option<RatchetState>>,
    known: Vec<RatchetState>,
    fail_restore: bool,
    fail_find: bool,
    fail_save: bool,
    saves: Cell<u32>,
    require_ratchet: bool,
    disallow: bool,
    accept: Option<bool>,
    reject_flag: bool,
    action: IncomingSessionAction,
    rekey_after_uses: u64,
    expire_after_uses: u64,
    aead: PhantomData<A>,
}

fn toy<A>() -> Toy<A> {
    Toy {
        states: vec![Some(RatchetState::empty()), None],
        known: Vec::new(),
        fail_restore: false,
        fail_find: false,
        fail_save: false,
        saves: Cell::new(0),
        require_ratchet: false,
        disallow: false,
        accept: Some(false),
        reject_flag: false,
        action: IncomingSessionAction::Allow,
        rekey_after_uses: 1000,
        expire_after_uses: 2000,
        aead: PhantomData,
    }
}

fn io_error() -> std::io::Error {
    std::io::Error::new(std::io::ErrorKind::Other, "no disk")
}

impl<A: AesGcmAead> ApplicationLayer for Toy<A> {
    type PublicKey = ToyPublic;
    type KeyPair = ToyPair;
    type Aead = A;
    type Prp = ToyPrp;
    type Hash = ToyHash;
    type Data = u32;

    fn settings(&self) -> Settings {
        Settings {
            retry_interval_ms: 1000,
            expiration_timeout_ms: 10_000,
            initial_offer_timeout_ms: 5000,
            rekey_after_time_max_jitter_ms: 600_000,
            rekey_after_uses: self.rekey_after_uses,
            expire_after_uses: self.expire_after_uses,
            fragment_assembly_timeout: 500,
            handshake_timeout: 4000,
        }
    }
    fn restore_by_identity(&mut self, _: &ToyPublic, _: &u32) -> Result<RatchetStates, std::io::Error> {
        if self.fail_restore {
            return Err(io_error());
        }
        Ok(RatchetStates {
            first: self.states[0].as_ref().map(|s| s.clone()),
            second: self.states[1].as_ref().map(|s| s.clone()),
        })
    }
    fn restore_by_fingerprint(
        &mut self,
        fingerprint: &[u8; 32],
    ) -> Result<Option<RatchetState>, std::io::Error> {
        if self.fail_find {
            return Err(io_error());
        }
        Ok(self.known.iter().find(|s| s.fingerprint_eq(fingerprint)).map(|s| s.clone()))
    }
    fn save_ratchet_state(
        &mut self,
        _: &ToyPublic,
        _: &u32,
        _: &RatchetStates,
        _: &RatchetStates,
    ) -> Result<(), std::io::Error> {
        if self.fail_save {
            return Err(io_error());
        }
        self.saves.set(self.saves.get() + 1);
        Ok(())
    }
    fn hello_requires_recognized_ratchet(&mut self) -> bool {
        self.require_ratchet
    }
    fn initiator_disallows_downgrade(&mut self) -> bool {
        self.disallow
    }
    fn check_accept_session(&mut self, _: &ToyPublic, identity: &[u8]) -> (Option<(bool, u32)>, bool) {
        (self.accept.map(|disallow| (disallow, identity.first().copied().unwrap_or(0) as u32)), self.reject_flag)
    }
    fn incoming_session(&mut self) -> IncomingSessionAction {
        self.action
    }
}

fn pair_a() -> ToyPair {
    ToyPair { secret: 0x1111111111111111 }
}

fn pair_b() -> ToyPair {
    ToyPair { secret: 0x7777777777777777 }
}

fn identity() -> Vec<u8> {
    vec![9; 49]
}

/// A session that has sent a hello, and the hello.
fn open_session<A: AesGcmAead>(app: &mut Toy<A>, time: i64) -> (Zeta<Toy<A>>, Vec<u8>) {
    let mut rng = OsRng;
    let (zeta, x1) =
        Zeta::trans_null_to_a1(app, &mut rng, KID_A, pair_b().public(), 7, time).unwrap();
    (zeta, x1.2)
}

fn hello_counter(x1: &[u8]) -> u64 {
    u64::from_be_bytes(x1[x1.len() - 8..].try_into().unwrap())
}

/// The counter that the last bytes of the response `x2` spell.
fn response_counter(x2: &[u8]) -> u64 {
    let l: usize = x2.len();
    u64::from_be_bytes([0, 0, 0, 0, 0, x2[l - 3], x2[l - 2], x2[l - 1]])
}

fn answer<A: AesGcmAead>(app: &mut Toy<A>, x1: &[u8]) -> (StateB2<Toy<A>>, Packet) {
    let mut rng = OsRng;
    Zeta::trans_null_to_b2(app, &mut rng, KID_B, &pair_b(), hello_counter(x1), x1.to_vec())
        .unwrap()
}

fn complete<A: AesGcmAead>(app: &mut Toy<A>, a: &mut Zeta<Toy<A>>, x2: &Packet) -> (Packet, bool) {
    let (_, c) = from_nonce(&x2.1);
    a.trans_a1_to_a3(app, KID_A, c, x2.2.clone(), &pair_a(), &identity(), 2000).unwrap()
}

/// Two sessions that the handshake has established, before the key is confirmed.
fn establish<A: AesGcmAead>(app: &mut Toy<A>) -> (Zeta<Toy<A>>, Zeta<Toy<A>>, Packet) {
    let (mut a, x1) = open_session(app, 1000);
    let (b2, x2) = answer(app, &x1);
    let (x3, _) = complete(app, &mut a, &x2);
    let (b, c1, _) = Zeta::trans_b2_to_s1(&b2, app, KID_B, x3.2, 3000).ok().unwrap();
    (a, b, c1)
}

/// Two sessions whose key is confirmed at both ends.
fn confirmed<A: AesGcmAead>(app: &mut Toy<A>) -> (Zeta<Toy<A>>, Zeta<Toy<A>>) {
    let mut rng = OsRng;
    let (mut a, mut b, c1) = establish(app);
    let c2 = a.trans_to_s2(app, &mut rng, KID_A, c1.1, c1.2, 4000).unwrap();
    b.trans_s1_to_s2(app, &mut rng, KID_B, c2.1, c2.2, 5000).unwrap();
    (a, b)
}

fn same_secret(a: &Option<Secret>, b: &Option<Secret>) -> bool {
    match (a, b) {
        (Some(a), Some(b)) => a.as_ref() == b.as_ref(),
        _ => false,
    }
}

fn assert_mirrored<A: AesGcmAead>(a: &Zeta<Toy<A>>, a_next: bool, b: &Zeta<Toy<A>>, b_next: bool) {
    let (ka, kb) = (a.key_ref(a_next), b.key_ref(b_next));
    assert!(same_secret(&ka.send.kek, &kb.recv.kek));
    assert!(same_secret(&ka.send.nk, &kb.recv.nk));
    assert!(same_secret(&ka.recv.kek, &kb.send.kek));
    assert!(same_secret(&ka.recv.nk, &kb.send.nk));
    assert_eq!(ka.send.kid, kb.recv.kid);
    assert_eq!(ka.recv.kid, kb.send.kid);
    assert_ne!(ka.send.nk.as_ref().unwrap().as_ref(), ka.recv.nk.as_ref().unwrap().as_ref());
}

fn strict() -> Toy<StrictAead> {
    toy()
}

fn state(key: u8, chain_len: u64) -> RatchetState {
    RatchetState::new_raw([key; 32], [key + 1; 32], chain_len)
}

#[test]
fn hello_has_its_parts() {
    let mut rng = OsRng;
    let mut app = strict();
    app.states = vec![Some(state(1, 4)), Some(state(5, 3))];
    let (a, p) =
        Zeta::trans_null_to_a1(&mut app, &mut rng, KID_A, pair_b().public(), 7, 1000).unwrap();
    assert_eq!(p.0, 0);
    assert_eq!(p.2.len(), 4 + 49 + 1568 + 16 + 64 + 16);
    assert_eq!(p.2[..4], [1, 2, 3, 4]);
    assert_eq!(from_nonce(&p.1), (PACKET_TYPE_HANDSHAKE_HELLO, hello_counter(&p.2)));
    assert_eq!(a.key_ref(true).recv.kid, Some(KID_A));
    assert_eq!(a.resend_timer, 2000);
    assert_eq!(a.timeout_timer, 11_000);
    assert_eq!(a.send_counter, 0);
    assert!(!a.was_bob);
    assert_eq!(a.application_data, 7);
    assert!(matches!(a.beta, ZsspAutomata::A1 { .. }));
}

#[test]
fn hello_needs_a_key_that_agrees() {
    let mut rng = OsRng;
    let bad = ToyPair { secret: 0 };
    let r = Zeta::trans_null_to_a1(&mut strict(), &mut rng, KID_A, bad.public(), 7, 1000);
    assert!(matches!(r, Err(OpenError::InvalidPublicKey)));
}

#[test]
fn hello_needs_storage() {
    let mut rng = OsRng;
    let mut app = strict();
    app.fail_restore = true;
    let r = Zeta::trans_null_to_a1(&mut app, &mut rng, KID_A, pair_b().public(), 7, 1000);
    assert!(matches!(r, Err(OpenError::StorageError(_))));
}

#[test]
fn hello_is_read() {
    let mut app = strict();
    app.states = vec![Some(state(1, 4)), Some(state(5, 3))];
    let (a, x1) = open_session(&mut app, 1000);
    let hello = Zeta::<Toy<StrictAead>>::read_hello(&pair_b(), hello_counter(&x1), &x1).unwrap();
    assert_eq!(hello.kid_send, KID_A);
    assert_eq!(hello.e1.len(), 1568);
    let mut fingerprints: Vec<u8> = vec![2; 32];
    fingerprints.extend([6; 32]);
    assert_eq!(hello.fingerprints, fingerprints);
    match &a.beta {
        ZsspAutomata::A1 { noise, e_secret, .. } => {
            assert_eq!(hello.e_remote, e_secret.public());
            assert_eq!(hello.noise.h, noise.h);
            assert_eq!(hello.noise.k.as_ref(), noise.k.as_ref());
        }
        _ => panic!("no hello"),
    }
    // The holder of another key reads nothing.
    assert!(Zeta::<Toy<StrictAead>>::read_hello(&pair_a(), hello_counter(&x1), &x1).is_none());
}

#[test]
fn hello_is_refused() {
    let mut rng = OsRng;
    let mut app = strict();
    let (_, x1) = open_session(&mut app, 1000);
    let c: u64 = hello_counter(&x1);
    let mut cases: Vec<(u64, Vec<u8>)> = Vec::new();
    cases.push((c + 1, x1.clone()));
    cases.push((c, x1[1..].to_vec()));
    let mut zero_kid = x1.clone();
    zero_kid[..4].copy_from_slice(&[0; 4]);
    cases.push((c, zero_kid));
    let mut other_kid = x1.clone();
    other_kid[0] = 7;
    cases.push((c, other_kid));
    let mut bad_key = x1.clone();
    bad_key[4] = 3;
    cases.push((c, bad_key));
    let mut bad_tag = x1.clone();
    bad_tag[4 + 49 + 1568] ^= 1;
    cases.push((c, bad_tag));
    let mut long = x1.clone();
    long.extend([0; 65]);
    cases.push((hello_counter(&long), long));
    for (c, x1) in cases {
        let r = Zeta::trans_null_to_b2(&mut app, &mut rng, KID_B, &pair_b(), c, x1);
        assert!(matches!(r, Err(ZetaError::FailedAuthentication)));
    }
    assert!(Zeta::trans_null_to_b2(&mut app, &mut rng, KID_B, &pair_b(), c, x1).is_ok());
}

#[test]
fn response_has_its_parts() {
    let mut app = strict();
    let (_, x1) = open_session(&mut app, 1000);
    let (b2, p) = answer(&mut app, &x1);
    assert_eq!(b2.kid_send, KID_A);
    assert_eq!(b2.kid_recv, KID_B);
    assert!(b2.ratchet_state == RatchetState::empty());
    assert_eq!(p.0, KID_A);
    assert_eq!(p.2.len(), 49 + 1568 + 16 + 4 + 16);
    let c: u64 = response_counter(&p.2);
    assert_eq!(from_nonce(&p.1), (PACKET_TYPE_HANDSHAKE_RESPONSE, c));
}

#[test]
fn responder_takes_the_first_ratchet_state_that_it_knows() {
    let mut app_a = strict();
    app_a.states = vec![Some(state(1, 4)), Some(state(5, 3))];
    let (_, x1) = open_session(&mut app_a, 1000);
    let mut app_b = strict();
    app_b.known = vec![state(5, 3)];
    assert!(answer(&mut app_b, &x1).0.ratchet_state == state(5, 3));
    app_b.known = vec![state(5, 3), state(1, 4)];
    assert!(answer(&mut app_b, &x1).0.ratchet_state == state(1, 4));
    app_b.known = vec![];
    assert!(answer(&mut app_b, &x1).0.ratchet_state.is_empty());

    let mut rng = OsRng;
    app_b.require_ratchet = true;
    let r = Zeta::trans_null_to_b2(
        &mut app_b,
        &mut rng,
        KID_B,
        &pair_b(),
        hello_counter(&x1),
        x1.clone(),
    );
    assert!(matches!(r, Err(ZetaError::FailedAuthentication)));
    app_b.fail_find = true;
    let r = Zeta::trans_null_to_b2(&mut app_b, &mut rng, KID_B, &pair_b(), hello_counter(&x1), x1);
    assert!(matches!(r, Err(ZetaError::RatchetIoError(_))));
}

#[test]
fn handshake_mirrors_the_keys() {
    let mut app = strict();
    let (a, b, c1) = establish(&mut app);
    assert_mirrored(&a, true, &b, false);
    assert_eq!(a.hk_send.as_ref(), b.hk_recv.as_ref());
    assert_eq!(a.hk_recv.as_ref(), b.hk_send.as_ref());
    let (ra, rb) = (a.ratchet_states.first.as_ref(), b.ratchet_states.first.as_ref());
    assert!(ra.unwrap() == rb.unwrap());
    assert_eq!(ra.unwrap().chain_len, 1);
    assert!(a.ratchet_states.second.as_ref().unwrap().is_empty());
    assert!(b.ratchet_states.second.is_none());
    assert!(b.was_bob);
    assert_eq!(b.application_data, 9);
    assert_eq!((b.send_counter, b.key_creation_counter), (1, 1));
    assert_eq!((b.resend_timer, b.timeout_timer), (4000, 13_000));
    assert_eq!((a.resend_timer, a.timeout_timer), (3000, 7000));
    assert_eq!(c1.0, KID_A);
    assert_eq!(from_nonce(&c1.1), (PACKET_TYPE_KEY_CONFIRM, 0));
    assert_eq!(app.saves.get(), 2);
}

#[test]
fn response_is_refused() {
    let mut app = strict();
    let (mut a, x1) = open_session(&mut app, 1000);
    let (_, p) = answer(&mut app, &x1);
    let x2 = p.2;
    let c: u64 = response_counter(&x2);
    let mut bad = x2.clone();
    bad[60] ^= 1;
    let cases: Vec<(u32, u64, Vec<u8>)> = vec![
        (KID_B, c, x2.clone()),
        (KID_A, c ^ 1, x2.clone()),
        (KID_A, c + (1 << 24), x2.clone()),
        (KID_A, c, x2[1..].to_vec()),
        (KID_A, c, bad),
    ];
    for (kid, c, x2) in cases {
        let r = a.trans_a1_to_a3(&mut app, kid, c, x2, &pair_a(), &identity(), 2000);
        assert!(matches!(r, Err(ZetaError::FailedAuthentication)));
        assert!(matches!(a.beta, ZsspAutomata::A1 { .. }));
    }
    let (x3, downgraded) =
        a.trans_a1_to_a3(&mut app, KID_A, c, x2.clone(), &pair_a(), &identity(), 2000).unwrap();
    assert!(!downgraded);
    assert_eq!(x3.0, KID_B);
    assert_eq!(from_nonce(&x3.1), (PACKET_TYPE_HANDSHAKE_COMPLETION, 0));
    assert_eq!(x3.2.len(), 49 + 16 + 49 + 16);
    // Once it has been taken, the response is not taken again.
    let r = a.trans_a1_to_a3(&mut app, KID_A, c, x2, &pair_a(), &identity(), 2000);
    assert!(matches!(r, Err(ZetaError::FailedAuthentication)));
}

#[test]
fn response_needs_storage() {
    let mut app = strict();
    let (mut a, x1) = open_session(&mut app, 1000);
    let (_, p) = answer(&mut app, &x1);
    app.fail_save = true;
    let c: u64 = response_counter(&p.2);
    let r = a.trans_a1_to_a3(&mut app, KID_A, c, p.2, &pair_a(), &identity(), 2000);
    assert!(matches!(r, Err(ZetaError::RatchetIoError(_))));
    assert!(matches!(a.beta, ZsspAutomata::A1 { .. }));
}

#[test]
fn initiator_keeps_the_ratchet_state_that_was_used() {
    for (known, chain_len, preserved) in [(1u8, 4u64, 1u8), (5, 3, 5)] {
        let mut app_a = strict();
        app_a.states = vec![Some(state(1, 4)), Some(state(5, 3))];
        let mut app_b = strict();
        app_b.known = vec![state(known, chain_len)];
        let (mut a, x1) = open_session(&mut app_a, 1000);
        let (_, x2) = answer(&mut app_b, &x1);
        let (_, downgraded) = complete(&mut app_a, &mut a, &x2);
        assert!(!downgraded);
        assert_eq!(a.ratchet_states.first.as_ref().unwrap().chain_len, chain_len + 1);
        assert_eq!(*a.ratchet_states.second.as_ref().unwrap().key.as_ref(), [preserved; 32]);
    }
}

#[test]
fn initiator_downgrades_only_where_allowed() {
    let mut app = strict();
    app.states = vec![Some(state(1, 4)), Some(state(5, 3))];
    let (mut a, x1) = open_session(&mut app, 1000);
    let (_, x2) = answer(&mut strict(), &x1);
    app.disallow = true;
    let c: u64 = response_counter(&x2.2);
    let r = a.trans_a1_to_a3(&mut app, KID_A, c, x2.2.clone(), &pair_a(), &identity(), 2000);
    assert!(matches!(r, Err(ZetaError::FailedAuthentication)));
    app.disallow = false;
    let (_, downgraded) = complete(&mut app, &mut a, &x2);
    assert!(downgraded);
    assert_eq!(a.ratchet_states.first.as_ref().unwrap().chain_len, 1);
    assert_eq!(*a.ratchet_states.second.as_ref().unwrap().key.as_ref(), [5; 32]);
}

#[test]
fn completion_is_refused() {
    let mut app = strict();
    let (mut a, x1) = open_session(&mut app, 1000);
    let (b2, x2) = answer(&mut app, &x1);
    let (x3, _) = complete(&mut app, &mut a, &x2);
    let mut bad = x3.2.clone();
    bad[70] ^= 1;
    for (kid, x3) in [(KID_A, x3.2.clone()), (KID_B, x3.2[1..].to_vec()), (KID_B, bad)] {
        let r = Zeta::trans_b2_to_s1(&b2, &mut app, kid, x3, 3000);
        assert!(matches!(r, Err((ZetaError::FailedAuthentication, None))));
    }
    let mut long = x3.2.clone();
    long.push(1);
    let r = Zeta::trans_b2_to_s1(&b2, &mut app, KID_B, long, 3000);
    assert!(matches!(r, Err((ZetaError::FailedAuthentication, None))));
    let r = Zeta::trans_b2_to_s1(&b2, &mut app, KID_B, vec![0; 49 + 16 + 15], 3000);
    assert!(matches!(r, Err((ZetaError::FailedAuthentication, None))));
}

#[test]
fn identity_of_any_size_is_read() {
    let mut app = strict();
    for size in [0, 1, 49, 50, IDENTITY_MAX_SIZE] {
        let identity: Vec<u8> = (0..size).map(|i| i as u8).collect();
        let (mut a, x1) = open_session(&mut app, 1000);
        let (b2, x2) = answer(&mut app, &x1);
        let (_, c) = from_nonce(&x2.1);
        let (x3, _) =
            a.trans_a1_to_a3(&mut app, KID_A, c, x2.2, &pair_a(), &identity, 2000).unwrap();
        assert_eq!(x3.2.len(), 49 + 16 + size + 16);
        let completion = b2.read_completion(KID_B, &x3.2).unwrap();
        assert_eq!(completion.identity, identity);
        assert_eq!(completion.s_remote, pair_a().public());
        let (b, _, _) = Zeta::trans_b2_to_s1(&b2, &mut app, KID_B, x3.2, 3000).ok().unwrap();
        assert_mirrored(&a, true, &b, false);
    }
}

#[test]
fn refusal_ends_the_session_of_the_initiator() {
    let mut app = strict();
    let (mut a, x1) = open_session(&mut app, 1000);
    let (b2, x2) = answer(&mut app, &x1);
    let (x3, _) = complete(&mut app, &mut a, &x2);
    app.accept = None;
    let r = Zeta::trans_b2_to_s1(&b2, &mut app, KID_B, x3.2.clone(), 3000);
    assert!(matches!(r, Err((ZetaError::Rejected, None))));
    app.reject_flag = true;
    let d = match Zeta::trans_b2_to_s1(&b2, &mut app, KID_B, x3.2, 3000) {
        Err((ZetaError::Rejected, Some(d))) => d,
        _ => panic!("not refused"),
    };
    assert_eq!(d.0, KID_A);
    assert_eq!(from_nonce(&d.1), (PACKET_TYPE_SESSION_REJECTED, 0));
    assert_eq!(d.2.len(), 16);
    assert!(matches!(
        a.trans_a3_to_null(KID_A, d.1, d.2[1..].to_vec()),
        Err(ZetaError::FailedAuthentication)
    ));
    assert!(matches!(
        a.trans_a3_to_null(KID_A, d.1, vec![0; 16]),
        Err(ZetaError::FailedAuthentication)
    ));
    assert!(matches!(
        a.trans_a3_to_null(KID_B, d.1, d.2.clone()),
        Err(ZetaError::OutOfSequence)
    ));
    assert!(a.trans_a3_to_null(KID_A, d.1, d.2.clone()).is_ok());
    assert!(matches!(a.beta, ZsspAutomata::Null));
    assert!(matches!(a.trans_a3_to_null(KID_A, d.1, d.2), Err(ZetaError::OutOfSequence)));
}

#[test]
fn responder_judges_the_ratchet_state() {
    let mut app = strict();
    let (mut a, x1) = open_session(&mut app, 1000);
    let (b2, x2) = answer(&mut app, &x1);
    let (x3, _) = complete(&mut app, &mut a, &x2);
    let mut app_b = strict();
    // The state is stored for the initiator.
    let (_, _, downgraded) =
        Zeta::trans_b2_to_s1(&b2, &mut app_b, KID_B, x3.2.clone(), 3000).ok().unwrap();
    assert!(!downgraded);
    // It is not, but it is empty, and that is allowed.
    app_b.states = vec![Some(state(1, 4)), None];
    let (_, _, downgraded) =
        Zeta::trans_b2_to_s1(&b2, &mut app_b, KID_B, x3.2.clone(), 3000).ok().unwrap();
    assert!(downgraded);
    // That is not allowed.
    app_b.accept = Some(true);
    app_b.reject_flag = true;
    let saves: u32 = app_b.saves.get();
    let r = Zeta::trans_b2_to_s1(&b2, &mut app_b, KID_B, x3.2.clone(), 3000);
    assert!(matches!(r, Err((ZetaError::FailedAuthentication, Some(_)))));
    assert_eq!(app_b.saves.get(), saves);
    app_b.fail_restore = true;
    let r = Zeta::trans_b2_to_s1(&b2, &mut app_b, KID_B, x3.2.clone(), 3000);
    assert!(matches!(r, Err((ZetaError::RatchetIoError(_), None))));
    app_b = strict();
    app_b.fail_save = true;
    let r = Zeta::trans_b2_to_s1(&b2, &mut app_b, KID_B, x3.2, 3000);
    assert!(matches!(r, Err((ZetaError::RatchetIoError(_), None))));
}

#[test]
fn confirmation_settles_both_ends() {
    let mut rng = OsRng;
    let mut app = strict();
    let (mut a, mut b, c1) = establish(&mut app);
    let saves: u32 = app.saves.get();
    let c2 = a.trans_to_s2(&mut app, &mut rng, KID_A, c1.1, c1.2.clone(), 4000).unwrap();
    // The state that is no longer needed is gone from storage.
    assert_eq!(app.saves.get(), saves + 1);
    assert!(a.ratchet_states.second.is_none());
    assert!(matches!(a.beta, ZsspAutomata::S2));
    assert_eq!(a.resend_timer, i64::MAX);
    assert!(a.timeout_timer > 4000 - 600_000 && a.timeout_timer < 4000 + 600_000);
    assert_mirrored(&a, false, &b, false);
    assert_eq!(c2.0, KID_B);
    assert_eq!(from_nonce(&c2.1), (PACKET_TYPE_ACK, 0));
    // A confirmation that comes again is acknowledged again.
    let again = a.trans_to_s2(&mut app, &mut rng, KID_A, c1.1, c1.2, 4000).unwrap();
    assert_eq!(from_nonce(&again.1), (PACKET_TYPE_ACK, 1));
    assert_eq!(app.saves.get(), saves + 1);

    b.trans_s1_to_s2(&mut app, &mut rng, KID_B, c2.1, c2.2.clone(), 5000).unwrap();
    assert!(matches!(b.beta, ZsspAutomata::S2));
    let r = b.trans_s1_to_s2(&mut app, &mut rng, KID_B, c2.1, c2.2, 5000);
    assert!(matches!(r, Err(ZetaError::OutOfSequence)));
}

#[test]
fn confirmation_is_refused() {
    let mut rng = OsRng;
    let mut app = strict();
    let (mut a, mut b, c1) = establish(&mut app);
    let r = a.trans_to_s2(&mut app, &mut rng, KID_A, c1.1, c1.2[1..].to_vec(), 4000);
    assert!(matches!(r, Err(ZetaError::FailedAuthentication)));
    let r = a.trans_to_s2(&mut app, &mut rng, KID_B, c1.1, c1.2.clone(), 4000);
    assert!(matches!(r, Err(ZetaError::OutOfSequence)));
    let r = a.trans_to_s2(&mut app, &mut rng, KID_A, nonce(PACKET_TYPE_ACK, 0), c1.2.clone(), 4000);
    assert!(matches!(r, Err(ZetaError::FailedAuthentication)));
    app.fail_save = true;
    let r = a.trans_to_s2(&mut app, &mut rng, KID_A, c1.1, c1.2.clone(), 4000);
    assert!(matches!(r, Err(ZetaError::RatchetIoError(_))));
    assert!(matches!(a.beta, ZsspAutomata::A3 { .. }));
    app.fail_save = false;
    let c2 = a.trans_to_s2(&mut app, &mut rng, KID_A, c1.1, c1.2, 4000).unwrap();
    let r = b.trans_s1_to_s2(&mut app, &mut rng, KID_B, c2.1, c2.2[1..].to_vec(), 5000);
    assert!(matches!(r, Err(ZetaError::FailedAuthentication)));
    let r = b.trans_s1_to_s2(&mut app, &mut rng, KID_A, c2.1, c2.2.clone(), 5000);
    assert!(matches!(r, Err(ZetaError::OutOfSequence)));
    let r = b.trans_s1_to_s2(&mut app, &mut rng, KID_B, nonce(PACKET_TYPE_ACK, 9), c2.2, 5000);
    assert!(matches!(r, Err(ZetaError::FailedAuthentication)));
}

#[test]
fn data_goes_both_ways() {
    let mut app = strict();
    let (mut a, mut b) = confirmed(&mut app);
    let settings = app.settings();
    let p = a.send(&settings, vec![1, 2, 3]).unwrap();
    assert_eq!(p.0, KID_B);
    assert_eq!(from_nonce(&p.1), (PACKET_TYPE_DATA, 1));
    assert_eq!(p.2.len(), 19);
    let data = b.recv(KID_B, p.1, p.2.clone()).unwrap();
    assert_eq!(data[..3], [1, 2, 3]);
    assert_eq!(data[3..], p.2[3..]);
    let q = b.send(&settings, vec![]).unwrap();
    assert_eq!(a.recv(KID_A, q.1, q.2.clone()).unwrap(), q.2);

    assert!(matches!(b.recv(KID_B, p.1, vec![0; 15]), Err(ZetaError::FailedAuthentication)));
    assert!(matches!(b.recv(KID_A, p.1, p.2.clone()), Err(ZetaError::OutOfSequence)));
    let other: [u8; 12] = nonce(PACKET_TYPE_DATA, 99);
    assert!(matches!(b.recv(KID_B, other, p.2), Err(ZetaError::FailedAuthentication)));
}

#[test]
fn data_needs_an_established_session() {
    let mut app = strict();
    let settings = app.settings();
    let (mut a, _) = open_session(&mut app, 1000);
    assert!(matches!(a.send(&settings, vec![1]), Err(SendError::SessionNotEstablished)));
    assert!(matches!(a.recv(KID_A, nonce(8, 0), vec![0; 16]), Err(ZetaError::OutOfSequence)));
    a.expire();
    assert!(matches!(a.send(&settings, vec![1]), Err(SendError::SessionExpired)));
    let (mut a, mut b, _) = establish(&mut app);
    assert!(matches!(a.send(&settings, vec![1]), Err(SendError::SessionNotEstablished)));
    assert!(b.send(&settings, vec![1]).is_ok());
}

#[test]
fn key_is_used_up() {
    let mut app = strict();
    app.rekey_after_uses = 3;
    app.expire_after_uses = 4;
    let settings = app.settings();
    let (_, mut b) = confirmed(&mut app);
    b.timeout_timer = 77;
    for c in 1u64..4 {
        let p = b.send(&settings, vec![1]).unwrap();
        assert_eq!(from_nonce(&p.1).1, c);
        assert_eq!(b.timeout_timer, 77);
    }
    b.send(&settings, vec![1]).unwrap();
    assert_eq!(b.timeout_timer, i64::MIN);
    // The last packet is still sent, and no other.
    assert!(b.send(&settings, vec![1]).is_ok());
    assert!(matches!(b.beta, ZsspAutomata::Null));
    assert!(matches!(b.send(&settings, vec![1]), Err(SendError::SessionExpired)));
}

#[test]
fn rekey_offer_is_answered() {
    let mut rng = OsRng;
    let mut app = strict();
    let (mut a, mut b) = confirmed(&mut app);
    let k1 = a.trans_s2_to_r1(&mut app, &mut rng, KID_C, &pair_a(), 6000).unwrap();
    assert_eq!(k1.0, KID_B);
    assert_eq!(from_nonce(&k1.1), (PACKET_TYPE_REKEY_INIT, 1));
    assert_eq!(k1.2.len(), 49 + 4 + 16 + 16);
    assert_eq!((a.resend_timer, a.timeout_timer), (7000, 16_000));
    assert_eq!(a.key_ref(true).recv.kid, Some(KID_C));
    assert!(matches!(
        a.trans_s2_to_r1(&mut app, &mut rng, KID_C, &pair_a(), 6000),
        Err(ZetaError::OutOfSequence)
    ));
    let k2 =
        b.trans_to_r2(&mut app, &mut rng, KID_D, &pair_b(), KID_B, k1.1, k1.2.clone(), 7000).unwrap();
    assert!(matches!(b.beta, ZsspAutomata::R2 { .. }));
    assert_eq!(b.key_ref(true).send.kid, Some(KID_C));
    assert_eq!(b.key_ref(true).recv.kid, Some(KID_D));
    assert_eq!(b.ratchet_states.first.as_ref().unwrap().chain_len, 2);
    assert_eq!(b.ratchet_states.second.as_ref().unwrap().chain_len, 1);
    assert_eq!(from_nonce(&k2.1), (PACKET_TYPE_REKEY_COMPLETE, 1));
    assert_eq!(k2.2.len(), 49 + 4 + 16 + 16);
    assert_eq!(b.key_creation_counter, b.send_counter);
    assert!(matches!(
        b.trans_to_r2(&mut app, &mut rng, KID_D, &pair_b(), KID_B, k1.1, k1.2, 7000),
        Err(ZetaError::OutOfSequence)
    ));
    // An answer is no offer.
    let n = nonce(PACKET_TYPE_REKEY_INIT, 1);
    let r = a.trans_r1_to_s1(&mut app, KID_A, n, k2.2.clone(), 8000);
    assert!(matches!(r, Err(ZetaError::FailedAuthentication)));
    assert!(matches!(a.beta, ZsspAutomata::R1 { .. }));
    assert!(a.trans_r1_to_s1(&mut app, KID_A, k2.1, k2.2, 8000).is_ok());
    assert!(matches!(a.beta, ZsspAutomata::S1));
}

#[test]
fn rekeying_mirrors_the_keys() {
    let mut rng = OsRng;
    let mut app = strict();
    let (mut a, mut b) = confirmed(&mut app);
    let k1 = a.trans_s2_to_r1(&mut app, &mut rng, KID_C, &pair_a(), 6000).unwrap();
    let k2 =
        b.trans_to_r2(&mut app, &mut rng, KID_D, &pair_b(), KID_B, k1.1, k1.2, 7000).unwrap();
    let c1 = a.trans_r1_to_s1(&mut app, KID_A, k2.1, k2.2, 8000).unwrap();
    assert_mirrored(&a, false, &b, true);
    assert!(
        a.ratchet_states.first.as_ref().unwrap() == b.ratchet_states.first.as_ref().unwrap()
    );
    assert_eq!(c1.0, KID_D);
    assert_eq!(from_nonce(&c1.1), (PACKET_TYPE_KEY_CONFIRM, 2));
    assert_eq!((a.key_creation_counter, a.send_counter), (2, 3));
    // The old key is still good for receiving.
    let p = b.send(&mut app.settings(), vec![5]).unwrap();
    assert_eq!(a.recv(KID_A, p.1, p.2).unwrap()[0], 5);
    let c2 = b.trans_to_s2(&mut app, &mut rng, KID_D, c1.1, c1.2, 9000).unwrap();
    assert_mirrored(&a, false, &b, false);
    assert_eq!(c2.0, KID_C);
    a.trans_s1_to_s2(&mut app, &mut rng, KID_C, c2.1, c2.2, 9500).unwrap();
    assert!(matches!(a.beta, ZsspAutomata::S2));
}

#[test]
fn rekey_offers_that_cross() {
    let mut rng = OsRng;
    let mut app = strict();
    let (mut a, mut b) = confirmed(&mut app);
    let k1_a = a.trans_s2_to_r1(&mut app, &mut rng, KID_C, &pair_a(), 6000).unwrap();
    let k1_b = b.trans_s2_to_r1(&mut app, &mut rng, KID_D, &pair_b(), 6000).unwrap();
    // The responder of the handshake gives way.
    assert!(matches!(
        a.trans_to_r2(&mut app, &mut rng, KID_C, &pair_a(), KID_A, k1_b.1, k1_b.2, 7000),
        Err(ZetaError::OutOfSequence)
    ));
    assert!(b
        .trans_to_r2(&mut app, &mut rng, KID_D, &pair_b(), KID_B, k1_a.1, k1_a.2, 7000)
        .is_ok());
}

#[test]
fn rekey_offer_is_refused() {
    let mut rng = OsRng;
    let mut app = strict();
    let (mut a, mut b) = confirmed(&mut app);
    let k1 = a.trans_s2_to_r1(&mut app, &mut rng, KID_C, &pair_a(), 6000).unwrap();
    let short: Vec<u8> = k1.2[1..].to_vec();
    assert!(matches!(
        b.trans_to_r2(&mut app, &mut rng, KID_D, &pair_b(), KID_B, k1.1, short, 7000),
        Err(ZetaError::FailedAuthentication)
    ));
    assert!(matches!(
        b.trans_to_r2(&mut app, &mut rng, KID_D, &pair_b(), KID_A, k1.1, k1.2.clone(), 7000),
        Err(ZetaError::OutOfSequence)
    ));
    let mut bad = k1.2.clone();
    bad[50] ^= 1;
    assert!(matches!(
        b.trans_to_r2(&mut app, &mut rng, KID_D, &pair_b(), KID_B, k1.1, bad, 7000),
        Err(ZetaError::FailedAuthentication)
    ));
    let counter: u64 = b.send_counter;
    app.fail_save = true;
    assert!(matches!(
        b.trans_to_r2(&mut app, &mut rng, KID_D, &pair_b(), KID_B, k1.1, k1.2.clone(), 7000),
        Err(ZetaError::RatchetIoError(_))
    ));
    // The counter of the answer that was not sent is spent all the same.
    assert_eq!(b.send_counter, counter + 1);
    assert!(matches!(b.beta, ZsspAutomata::S2));
    assert!(matches!(
        b.trans_r1_to_s1(&mut app, KID_B, k1.1, k1.2.clone(), 8000),
        Err(ZetaError::OutOfSequence)
    ));
    assert!(matches!(
        a.trans_r1_to_s1(&mut app, KID_A, k1.1, k1.2[1..].to_vec(), 8000),
        Err(ZetaError::FailedAuthentication)
    ));
    assert!(matches!(
        a.trans_r1_to_s1(&mut app, KID_B, k1.1, k1.2, 8000),
        Err(ZetaError::OutOfSequence)
    ));
}

#[test]
fn ratchet_keys_follow_the_handshake() {
    let mut app = strict();
    let (mut a, x1) = open_session(&mut app, 1000);
    let (_, x2) = answer(&mut app, &x1);
    complete(&mut app, &mut a, &x2);
    let noise = SymmetricState::<Toy<StrictAead>>::initialize(INITIAL_H);
    let (rk, rf) = noise.get_ask(LABEL_RATCHET_STATE);
    assert_ne!(rk.as_ref(), rf.as_ref());
    let first = a.ratchet_states.first.as_ref().unwrap();
    assert_ne!(first.key.as_ref(), rk.as_ref());
    assert_ne!(first.key.as_ref(), first.fingerprint().unwrap());
}

#[test]
fn ephemeral_key_is_read_back() {
    let mut rng = OsRng;
    let mut a = SymmetricState::<Toy<StrictAead>>::initialize(INITIAL_H);
    let mut b = a.clone();
    let mut packet: Vec<u8> = vec![7; 3];
    let e = a.write_e(&mut rng, &mut packet);
    assert_eq!(packet.len(), 3 + 49);
    let mut i: usize = 3;
    let key = b.read_e(&mut i, &packet).unwrap();
    assert_eq!(i, 52);
    assert_eq!(key, e.public());
    assert_eq!(a.h, b.h);
    assert_eq!(a.k.as_ref(), b.k.as_ref());
    assert!(a.token_dh(&e, &pair_b().public()).is_some());
    assert!(b.token_dh(&pair_b(), &key).is_some());
    assert_eq!(a.k.as_ref(), b.k.as_ref());
    assert!(a.token_dh(&e, &ToyPair { secret: 0 }.public()).is_none());
    assert_eq!(a.k.as_ref(), b.k.as_ref());
    // Bytes that are no key are added to the state all the same.
    packet[3] = 5;
    let before = b.h;
    let mut i: usize = 3;
    assert!(matches!(b.read_e(&mut i, &packet), Err(ZetaError::FailedAuthentication)));
    assert_ne!(b.h, before);
}

#[test]
fn session_is_established_once() {
    let mut rng = OsRng;
    let mut app = strict();
    let (a, b, c1) = establish(&mut app);
    let mut ctx_a = context(pair_a());
    let mut ctx_b = context(pair_b());
    put(&mut ctx_a, a);
    put(&mut ctx_b, b);
    let hk = ctx_b.0.sessions[0].as_ref().unwrap().zeta.hk_send.clone();
    let c1 = Outgoing { to: None, packet: c1, hk_send: Some(hk) };
    let r = deliver(&mut ctx_a, &mut app, &c1);
    assert!(matches!(r.result, Ok(ReceiveOk::Associated(_, SessionEvent::Established))));
    let (_, packets) = ctx_b.service(&mut app, 4001);
    let r = deliver(&mut ctx_a, &mut app, &packets[0]);
    assert!(matches!(r.result, Ok(ReceiveOk::Associated(_, SessionEvent::Control))));
    let r = deliver(&mut ctx_b, &mut app, &r.reply.unwrap());
    assert!(matches!(r.result, Ok(ReceiveOk::Associated(_, SessionEvent::Control))));
    let s = ctx_b.0.sessions[0].as_mut().unwrap();
    let again = s.zeta.trans_s1_to_s2(&mut app, &mut rng, KID_B, nonce(4, 0), vec![0; 16], 5000);
    assert!(matches!(again, Err(ZetaError::OutOfSequence)));
}

#[test]
fn fragments_of_a_packet() {
    let mut packet: Vec<u8> = header(KID_A, &nonce(PACKET_TYPE_DATA, 5));
    let payload: Vec<u8> = (0u8..25).collect();
    packet.extend(&payload);
    let fragments = send_with_fragmentation::<Toy<StrictAead>>(26, &packet, None);
    assert_eq!(fragments.len(), 3);
    let bounds: [(usize, usize); 3] = [(0, 9), (9, 17), (17, 25)];
    for (no, (i, j)) in bounds.iter().enumerate() {
        let mut expected: Vec<u8> = header(KID_A, &nonce(PACKET_TYPE_DATA, 5));
        expected[4] = no as u8;
        expected[5] = 3;
        expected.extend(&payload[*i..*j]);
        assert_eq!(fragments[no], expected);
    }
    let hk = Secret::new([0x5a; 32]);
    let protected = send_with_fragmentation::<Toy<StrictAead>>(26, &packet, Some(&hk));
    for no in 0..3 {
        assert_ne!(protected[no], fragments[no]);
        assert_eq!(protected[no][..4], fragments[no][..4]);
        assert_eq!(protected[no][20..], fragments[no][20..]);
        assert_eq!(unprotect::<Toy<StrictAead>>(&hk, protected[no].clone()), fragments[no]);
    }
}

#[test]
fn mtu_has_a_least_value() {
    let packet = Packet(KID_A, nonce(PACKET_TYPE_DATA, 5), vec![7; 113]);
    let outgoing = Outgoing { to: None, packet, hk_send: None };
    assert_eq!(outgoing.fragments::<Toy<StrictAead>>(1).len(), 2);
    assert_eq!(outgoing.fragments::<Toy<StrictAead>>(128).len(), 2);
    assert_eq!(outgoing.fragments::<Toy<StrictAead>>(129).len(), 1);
}

#[test]
fn challenge_is_for_one_address_and_one_context() {
    let mut rng = OsRng;
    let c1 = ChallengeContext::new(&mut rng);
    let c2 = ChallengeContext::new(&mut rng);
    let none: [u8; 32] = [0; 32];
    let challenge = c1.process_hello::<Toy<StrictAead>>(b"here", &none).unwrap_err();
    assert!(c1.process_hello::<Toy<StrictAead>>(b"here", &challenge).is_ok());
    assert!(c1.process_hello::<Toy<StrictAead>>(b"there", &challenge).is_err());
    assert!(c2.process_hello::<Toy<StrictAead>>(b"here", &challenge).is_err());
}

#[test]
fn challenge_key_is_made_of_the_draws() {
    let c = ChallengeContext::from_draws(
        0x0001020304050607,
        0x08090a0b0c0d0e0f,
        0x1011121314151617,
        0x18191a1b1c1d1e1f,
    );
    let key: Vec<u8> = (0..32).collect();
    let mac = ToyHash::hmac(&key, b"here");
    let none: [u8; 32] = [0; 32];
    let challenge = c.process_hello::<Toy<StrictAead>>(b"here", &none).unwrap_err();
    assert_eq!(challenge[..], mac[..32]);
}

type StrictContext = Context<Toy<StrictAead>>;

fn context(pair: ToyPair) -> StrictContext {
    Context::new(pair, OsRng)
}

fn put<A: AesGcmAead>(ctx: &mut Context<Toy<A>>, zeta: Zeta<Toy<A>>) -> SessionHandle {
    let i: usize = ctx.0.sessions.len();
    ctx.0.session_map.add_kids(&zeta, i);
    ctx.0.session_queue.insert(i, zeta.next_timer());
    ctx.0.sessions.push(Some(Session::new(zeta, identity())));
    SessionHandle { index: i }
}

/// Two contexts with a session between them.
fn contexts(
    app: &mut Toy<StrictAead>,
) -> (StrictContext, SessionHandle, StrictContext, SessionHandle) {
    let (a, b) = confirmed(app);
    let mut ctx_a = context(pair_a());
    let mut ctx_b = context(pair_b());
    let h_a = put(&mut ctx_a, a);
    let h_b = put(&mut ctx_b, b);
    (ctx_a, h_a, ctx_b, h_b)
}

fn fault_of(r: &Received) -> (FaultType, bool, Option<SessionHandle>) {
    match &r.result {
        Err(ReceiveError::ByzantineFault(f)) => (f.error, f.unnatural, f.session),
        _ => panic!("not a fault"),
    }
}

fn line_of(r: &Received) -> u32 {
    match &r.result {
        Err(ReceiveError::ByzantineFault(f)) => f.line(),
        _ => panic!("not a fault"),
    }
}

#[test]
fn context_opens_a_session() {
    let mut app = strict();
    let mut ctx = context(pair_a());
    assert!(ctx.has_room());
    let (handle, outgoing) =
        ctx.open(&mut app, pair_b().public(), 7, &identity(), 1000).ok().unwrap();
    assert_eq!(handle.index, 0);
    assert_eq!(outgoing.to, Some(handle));
    assert!(outgoing.hk_send.is_none());
    assert_eq!(outgoing.packet.0, 0);
    let x1 = match &ctx.0.sessions[0].as_ref().unwrap().zeta.beta {
        ZsspAutomata::A1 { x1, .. } => x1.clone(),
        _ => panic!("no hello"),
    };
    let mut expected = x1.clone();
    expected.extend([0; CHALLENGE_SIZE]);
    assert_eq!(outgoing.packet.2, expected);
    let kid: u32 = u32::from_be_bytes(x1[..4].try_into().unwrap());
    assert_eq!(ctx.0.session_map.get(kid), Some(0));
    assert_eq!(ctx.0.session_queue.entries, vec![(2000, 0)]);
    let (handle, _) = ctx.open(&mut app, pair_b().public(), 7, &identity(), 1000).ok().unwrap();
    assert_eq!(handle.index, 1);
}

#[test]
fn context_does_not_open_a_session() {
    let mut app = strict();
    let mut ctx = context(pair_a());
    let large: Vec<u8> = vec![0; IDENTITY_MAX_SIZE + 1];
    let r = ctx.open(&mut app, pair_b().public(), 7, &large, 1000);
    assert!(matches!(r, Err(OpenError::IdentityTooLarge)));
    assert!(ctx.open(&mut app, pair_b().public(), 7, &large[1..], 1000).is_ok());
    let r = ctx.open(&mut app, ToyPair { secret: 0 }.public(), 7, &identity(), 1000);
    assert!(matches!(r, Err(OpenError::InvalidPublicKey)));
    app.fail_restore = true;
    let r = ctx.open(&mut app, pair_b().public(), 7, &identity(), 1000);
    assert!(matches!(r, Err(OpenError::StorageError(_))));
    assert_eq!(ctx.0.sessions.len(), 1);
}

#[test]
fn context_delivers_data_once() {
    let mut app = strict();
    let (mut ctx_a, h_a, mut ctx_b, h_b) = contexts(&mut app);
    let fragments = ctx_a.send(&mut app, h_a, 128, b"hello").unwrap();
    assert_eq!(fragments.len(), 1);
    assert_eq!(fragments[0].len(), 16 + 5 + 16);
    let r = ctx_b.receive(&mut app, b"addr", fragments[0].clone(), 6000);
    assert!(matches!(r.result, Ok(ReceiveOk::Associated(h, SessionEvent::Data)) if h == h_b));
    assert_eq!(r.data, b"hello");
    assert!(r.reply.is_none());
    // The same packet again is a replay.
    let r = ctx_b.receive(&mut app, b"addr", fragments[0].clone(), 6000);
    assert_eq!(fault_of(&r), (FaultType::ExpiredCounter, false, Some(h_b)));
    assert!(r.data.is_empty());
}

#[test]
fn context_delivers_fragments_in_any_order() {
    let mut app = strict();
    let (mut ctx_a, h_a, mut ctx_b, _) = contexts(&mut app);
    let data: Vec<u8> = (0..500u32).map(|i| i as u8).collect();
    let mut fragments = ctx_a.send(&mut app, h_a, 128, &data).unwrap();
    assert_eq!(fragments.len(), 5);
    fragments.swap(0, 3);
    let last = fragments.pop().unwrap();
    for f in fragments {
        let r = ctx_b.receive(&mut app, b"addr", f, 6000);
        assert!(matches!(r.result, Ok(ReceiveOk::Unassociated)));
        assert!(r.data.is_empty());
    }
    let r = ctx_b.receive(&mut app, b"addr", last, 6000);
    assert!(matches!(r.result, Ok(ReceiveOk::Associated(_, SessionEvent::Data))));
    assert_eq!(r.data, data);
}

#[test]
fn context_does_not_send() {
    let mut app = strict();
    let (mut ctx, h, _, _) = contexts(&mut app);
    assert!(matches!(ctx.send(&mut app, h, 127, b"x"), Err(SendError::MtuTooSmall)));
    let most: usize = 48 * 112 - 16;
    assert!(matches!(ctx.send(&mut app, h, 128, &vec![0; most + 1]), Err(SendError::DataTooLarge)));
    assert_eq!(ctx.send(&mut app, h, 128, &vec![0; most]).unwrap().len(), 48);
    let other = SessionHandle { index: 5 };
    assert!(matches!(ctx.send(&mut app, other, 128, b"x"), Err(SendError::SessionExpired)));
    ctx.0.sessions[0].as_mut().unwrap().zeta.expire();
    assert!(matches!(ctx.send(&mut app, h, 128, b"x"), Err(SendError::SessionExpired)));
    let (h, _) = ctx.open(&mut app, pair_b().public(), 7, &identity(), 1000).ok().unwrap();
    assert!(matches!(ctx.send(&mut app, h, 128, b"x"), Err(SendError::SessionNotEstablished)));
    ctx.0.sessions[h.index] = None;
    assert!(matches!(ctx.send(&mut app, h, 128, b"x"), Err(SendError::SessionExpired)));
}

#[test]
fn context_refuses_what_is_not_a_packet() {
    let mut app = strict();
    let (_, _, mut ctx, h) = contexts(&mut app);
    let r = ctx.receive(&mut app, b"addr", vec![0; MIN_PACKET_SIZE - 1], 6000);
    assert_eq!(fault_of(&r), (FaultType::InvalidPacket, false, None));
    let mut unknown: Vec<u8> = vec![0; MIN_PACKET_SIZE];
    unknown[..4].copy_from_slice(&0x99999999u32.to_ne_bytes());
    let r = ctx.receive(&mut app, b"addr", unknown, 6000);
    assert_eq!(fault_of(&r), (FaultType::UnknownLocalKeyId, false, None));
    // A header without a fragment.
    let r = ctx.receive(&mut app, b"addr", vec![0; MIN_PACKET_SIZE], 6000);
    assert_eq!(fault_of(&r), (FaultType::InvalidPacket, true, None));
    // A type that is not for strangers.
    let mut typed: Vec<u8> = header(0, &nonce(PACKET_TYPE_DATA, 1));
    typed[5] = 1;
    typed.extend([0; 16]);
    let r = ctx.receive(&mut app, b"addr", typed, 6000);
    assert_eq!(fault_of(&r), (FaultType::InvalidPacket, true, None));
    let _ = h;
}

fn to_session(ctx: &StrictContext, h: SessionHandle, kid: u32, t: u8, c: u64) -> Vec<u8> {
    let hk = ctx.0.sessions[h.index].as_ref().unwrap().zeta.hk_recv.clone();
    let packet = Packet(kid, nonce(t, c), vec![0; 16]);
    let outgoing = Outgoing { to: None, packet, hk_send: Some(hk) };
    outgoing.fragments::<Toy<StrictAead>>(128).remove(0)
}

#[test]
fn session_refuses_packets() {
    let mut app = strict();
    let (_, _, mut ctx, h) = contexts(&mut app);
    let cases: Vec<(u8, u64, FaultType, bool)> = vec![
        (PACKET_TYPE_HANDSHAKE_RESPONSE, 0, FaultType::OutOfSequence, false),
        (PACKET_TYPE_HANDSHAKE_COMPLETION, 0, FaultType::InvalidPacket, false),
        (PACKET_TYPE_CHALLENGE, 0, FaultType::InvalidPacket, true),
        (PACKET_TYPE_HANDSHAKE_HELLO, 0, FaultType::InvalidPacket, true),
        (PACKET_TYPE_DATA, u64::MAX, FaultType::ExpiredCounter, false),
        (PACKET_TYPE_DATA, 9, FaultType::FailedAuth, true),
        (PACKET_TYPE_KEY_CONFIRM, 9, FaultType::FailedAuth, true),
        (PACKET_TYPE_ACK, 9, FaultType::OutOfSequence, false),
        (PACKET_TYPE_REKEY_INIT, 9, FaultType::FailedAuth, true),
        (PACKET_TYPE_SESSION_REJECTED, 9, FaultType::OutOfSequence, false),
    ];
    for (t, c, error, unnatural) in cases {
        let f = to_session(&ctx, h, KID_B, t, c);
        let r = ctx.receive(&mut app, b"addr", f, 6000);
        assert_eq!(fault_of(&r), (error, unnatural, Some(h)));
    }
    // Each fault has a number of its own.
    let mut lines: Vec<u32> = Vec::new();
    for (t, c) in [
        (PACKET_TYPE_HANDSHAKE_RESPONSE, 0),
        (PACKET_TYPE_HANDSHAKE_COMPLETION, 0),
        (PACKET_TYPE_CHALLENGE, 0),
        (PACKET_TYPE_DATA, u64::MAX),
        (PACKET_TYPE_DATA, 9),
        (PACKET_TYPE_KEY_CONFIRM, 9),
        (PACKET_TYPE_ACK, 9),
        (PACKET_TYPE_REKEY_INIT, 9),
        (PACKET_TYPE_REKEY_COMPLETE, 9),
        (PACKET_TYPE_SESSION_REJECTED, 9),
    ] {
        let f = to_session(&ctx, h, KID_B, t, c);
        lines.push(line_of(&ctx.receive(&mut app, b"addr", f, 6000)));
    }
    let mut distinct = lines.clone();
    distinct.sort();
    distinct.dedup();
    assert_eq!(distinct.len(), lines.len());
    assert_eq!(lines[3], FAULT_EXPIRED_COUNTER);
    assert_eq!(lines[4], FAULT_DATA_AUTH);
    assert_eq!(lines[6], FAULT_ACKNOWLEDGEMENT_STAGE);
    // A counter that comes with a packet that is not authentic is not taken.
    assert!(ctx.0.sessions[h.index].as_ref().unwrap().window.check(9));
    ctx.0.sessions[h.index].as_mut().unwrap().zeta.send_counter = u64::MAX;
    let f = to_session(&ctx, h, KID_B, PACKET_TYPE_KEY_CONFIRM, 9);
    let r = ctx.receive(&mut app, b"addr", f, 6000);
    assert_eq!(fault_of(&r), (FaultType::FailedAuth, true, Some(h)));
    assert_eq!(line_of(&r), FAULT_CONFIRMATION_AUTH);
}

#[test]
fn full_counter_answers_nothing() {
    let mut app = strict();
    let (a, mut b, c1) = establish(&mut app);
    let mut ctx = context(pair_a());
    let hk = a.hk_recv.clone();
    let h = put(&mut ctx, a);
    ctx.0.sessions[h.index].as_mut().unwrap().zeta.send_counter = u64::MAX;
    let c1 = Outgoing { to: None, packet: c1, hk_send: Some(hk) };
    let r = deliver(&mut ctx, &mut app, &c1);
    assert!(matches!(r.result, Err(ReceiveError::MaxKeyLifetimeExceeded(s)) if s == h));
    assert!(r.reply.is_none());

    b.send_counter = u64::MAX;
    let h = put(&mut ctx, b);
    assert!(matches!(ctx.send(&mut app, h, 128, b"x"), Err(SendError::SessionExpired)));
    assert!(ctx.0.sessions[h.index].is_none());
}

#[test]
fn expired_session_receives_nothing() {
    let mut app = strict();
    app.expire_after_uses = 3;
    let (mut ctx_a, h_a, mut ctx_b, h_b) = contexts(&mut app);
    let kid: u32 =
        ctx_a.0.sessions[h_a.index].as_ref().unwrap().zeta.key_ref(false).recv.kid.unwrap();
    // The session is gone with the use that is one too many.
    let mut sent: u32 = 0;
    while ctx_a.0.sessions[h_a.index].is_some() {
        assert_eq!(ctx_a.send(&mut app, h_a, 128, b"x").unwrap().len(), 1);
        sent += 1;
    }
    assert_eq!(sent, 3);
    assert_eq!(ctx_a.0.session_map.get(kid), None);
    assert!(ctx_a.0.session_queue.entries.is_empty());
    assert!(matches!(ctx_a.send(&mut app, h_a, 128, b"x"), Err(SendError::SessionExpired)));
    let fragments = ctx_b.send(&mut app, h_b, 128, b"late").unwrap();
    let r = ctx_a.receive(&mut app, b"addr", fragments[0].clone(), 6000);
    assert_eq!(fault_of(&r), (FaultType::UnknownLocalKeyId, false, None));
    assert!(r.data.is_empty());

    // One that has expired and is still there takes nothing either.
    let mut app = strict();
    let (mut ctx_a, h_a, mut ctx_b, h_b) = contexts(&mut app);
    ctx_a.0.sessions[h_a.index].as_mut().unwrap().zeta.expire();
    let fragments = ctx_b.send(&mut app, h_b, 128, b"late").unwrap();
    let r = ctx_a.receive(&mut app, b"addr", fragments[0].clone(), 6000);
    assert_eq!(fault_of(&r), (FaultType::ExpiredCounter, false, Some(h_a)));
    assert_eq!(line_of(&r), FAULT_EXPIRED_COUNTER);
    assert!(r.data.is_empty());
}

#[test]
fn strangers_are_not_answered() {
    let mut app = strict();
    app.require_ratchet = true;
    let mut ctx = context(pair_b());
    let mut open_a = strict();
    open_a.states = vec![Some(state(1, 4)), None];
    let mut ctx_a = context(pair_a());
    let (_, hello) = ctx_a.open(&mut open_a, pair_b().public(), 7, &identity(), 1000).ok().unwrap();
    // The hello names no state that is known.
    let r = deliver(&mut ctx, &mut app, &hello);
    assert_eq!(fault_of(&r), (FaultType::FailedAuth, true, None));
    assert!(r.reply.is_none());
    // The state is known, but the hello is not authentic.
    app.known = vec![state(1, 4)];
    let mut bad = hello.packet.2.clone();
    bad[60] ^= 1;
    let bad = Outgoing { to: None, packet: Packet(0, hello.packet.1, bad), hk_send: None };
    let r = deliver(&mut ctx, &mut app, &bad);
    assert_eq!(fault_of(&r), (FaultType::FailedAuth, true, None));
    assert!(r.reply.is_none());
    assert!(ctx.0.unassociated_handshake_states.entries.is_empty());
    let r = deliver(&mut ctx, &mut app, &hello);
    assert!(r.reply.is_some());
    // A completion that is not authentic.
    let b2 = &ctx.0.unassociated_handshake_states.entries[0].b2;
    let packet =
        Packet(b2.kid_recv, nonce(PACKET_TYPE_HANDSHAKE_COMPLETION, 0), vec![7; 49 + 16 + 20 + 16]);
    let bad = Outgoing { to: None, packet, hk_send: Some(b2.hk_recv.clone()) };
    app.reject_flag = true;
    app.accept = None;
    let r = deliver(&mut ctx, &mut app, &bad);
    assert_eq!(fault_of(&r), (FaultType::FailedAuth, true, None));
    assert!(r.reply.is_none());
}

#[test]
fn response_counter_is_bounded() {
    let mut app = strict();
    let (a, _) = open_session(&mut app, 1000);
    let mut ctx = context(pair_a());
    let h = put(&mut ctx, a);
    let f = to_session(&ctx, h, KID_A, PACKET_TYPE_HANDSHAKE_RESPONSE, 1 << 24);
    let r = ctx.receive(&mut app, b"addr", f, 6000);
    assert_eq!(fault_of(&r), (FaultType::ExpiredCounter, true, Some(h)));
}

fn deliver(ctx: &mut StrictContext, app: &mut Toy<StrictAead>, o: &Outgoing) -> Received {
    let mut last: Option<Received> = None;
    for f in o.fragments::<Toy<StrictAead>>(1500) {
        last = Some(ctx.receive(app, b"addr", f, 3000));
    }
    last.unwrap()
}

/// Two contexts that have gone through a handshake, as far as the packets of one carry it to the
/// other.
fn handshake(
    app: &mut Toy<StrictAead>,
) -> (StrictContext, SessionHandle, StrictContext, SessionHandle) {
    let mut ctx_a = context(pair_a());
    let mut ctx_b = context(pair_b());
    let identity: Vec<u8> = vec![9; 300];
    let (h_a, hello) = ctx_a.open(app, pair_b().public(), 7, &identity, 1000).ok().unwrap();
    assert!(hello.fragments::<Toy<StrictAead>>(1500).len() > 1);
    assert!(matches!(ctx_a.send(app, h_a, 128, b"x"), Err(SendError::SessionNotEstablished)));
    let r = deliver(&mut ctx_b, app, &hello);
    assert!(matches!(r.result, Ok(ReceiveOk::Unassociated)));
    let x2 = r.reply.unwrap();
    assert_eq!(x2.to, None);
    let kid_a: u32 = u32::from_be_bytes(hello.packet.2[..4].try_into().unwrap());
    assert_eq!(x2.packet.0, kid_a);
    let kid_b: u32 = ctx_b.0.unassociated_handshake_states.entries[0].b2.kid_recv;
    assert_eq!(ctx_b.0.unassociated_handshake_states.entries[0].expiry, 7000);

    let r = deliver(&mut ctx_a, app, &x2);
    assert!(
        matches!(r.result, Ok(ReceiveOk::Associated(h, SessionEvent::Control)) if h == h_a)
    );
    let x3 = r.reply.unwrap();
    assert_eq!(x3.to, Some(h_a));
    assert_eq!(x3.packet.0, kid_b);
    assert!(matches!(ctx_a.send(app, h_a, 128, b"x"), Err(SendError::SessionNotEstablished)));
    let r = deliver(&mut ctx_b, app, &x3);
    let h_b = match r.result {
        Ok(ReceiveOk::Associated(h, SessionEvent::NewSession)) => h,
        _ => panic!("no session"),
    };
    assert!(ctx_b.0.unassociated_handshake_states.entries.is_empty());
    let c1 = r.reply.unwrap();
    // The completion makes one session only.
    let r = deliver(&mut ctx_b, app, &x3);
    assert_eq!(fault_of(&r), (FaultType::InvalidPacket, false, Some(h_b)));
    assert_eq!(ctx_b.0.sessions.len(), 1);

    let r = deliver(&mut ctx_a, app, &c1);
    assert!(matches!(r.result, Ok(ReceiveOk::Associated(_, SessionEvent::Established))));
    let c2 = r.reply.unwrap();
    let r = deliver(&mut ctx_b, app, &c2);
    assert!(matches!(r.result, Ok(ReceiveOk::Associated(_, SessionEvent::Control))));
    // The session is established once.
    let r = deliver(&mut ctx_a, app, &c1);
    assert_eq!(fault_of(&r), (FaultType::ExpiredCounter, false, Some(h_a)));
    (ctx_a, h_a, ctx_b, h_b)
}

fn exchange_data(
    app: &mut Toy<StrictAead>,
    from: &mut StrictContext,
    h_from: SessionHandle,
    to: &mut StrictContext,
    data: &[u8],
) {
    let fragments = from.send(app, h_from, 128, data).unwrap();
    for f in &fragments {
        assert!(f.len() <= 128);
    }
    let r = to.receive(app, b"addr", fragments[0].clone(), 6000);
    assert!(matches!(r.result, Ok(ReceiveOk::Associated(_, SessionEvent::Data))));
    assert_eq!(r.data, data);
}

#[test]
fn handshake_goes_through_contexts() {
    let mut app = strict();
    let (mut ctx_a, h_a, mut ctx_b, h_b) = handshake(&mut app);
    let a = &ctx_a.0.sessions[h_a.index].as_ref().unwrap().zeta;
    let b = &ctx_b.0.sessions[h_b.index].as_ref().unwrap().zeta;
    assert!(matches!(a.beta, ZsspAutomata::S2));
    assert!(matches!(b.beta, ZsspAutomata::S2));
    assert_mirrored(a, false, b, false);
    exchange_data(&mut app, &mut ctx_a, h_a, &mut ctx_b, b"there");
    exchange_data(&mut app, &mut ctx_b, h_b, &mut ctx_a, b"and back");
}

#[test]
fn rekeying_goes_through_contexts() {
    let mut app = strict();
    let (mut ctx_a, h_a, mut ctx_b, h_b) = handshake(&mut app);
    let kid_before: u32 =
        ctx_a.0.sessions[h_a.index].as_ref().unwrap().zeta.key_ref(false).recv.kid.unwrap();
    ctx_a.0.sessions[h_a.index].as_mut().unwrap().zeta.timeout_timer = 100;
    ctx_a.0.session_queue.change_priority(h_a.index, 100);
    let (_, packets) = ctx_a.service(&mut app, 3000);
    assert_eq!(packets.len(), 1);
    let k2 = deliver(&mut ctx_b, &mut app, &packets[0]).reply.unwrap();
    assert_eq!(from_nonce(&k2.packet.1).0, PACKET_TYPE_REKEY_COMPLETE);
    let c1 = deliver(&mut ctx_a, &mut app, &k2).reply.unwrap();
    assert_eq!(from_nonce(&c1.packet.1).0, PACKET_TYPE_KEY_CONFIRM);
    let r = deliver(&mut ctx_b, &mut app, &c1);
    assert!(matches!(r.result, Ok(ReceiveOk::Associated(_, SessionEvent::Control))));
    let r = deliver(&mut ctx_a, &mut app, &r.reply.unwrap());
    assert!(matches!(r.result, Ok(ReceiveOk::Associated(_, SessionEvent::Control))));
    let a = &ctx_a.0.sessions[h_a.index].as_ref().unwrap().zeta;
    let b = &ctx_b.0.sessions[h_b.index].as_ref().unwrap().zeta;
    assert!(matches!(a.beta, ZsspAutomata::S2));
    assert!(matches!(b.beta, ZsspAutomata::S2));
    assert_mirrored(a, false, b, false);
    assert_ne!(a.key_ref(false).recv.kid, Some(kid_before));
    assert_eq!(a.ratchet_states.first.as_ref().unwrap().chain_len, 2);
    assert!(
        a.ratchet_states.first.as_ref().unwrap() == b.ratchet_states.first.as_ref().unwrap()
    );
    exchange_data(&mut app, &mut ctx_a, h_a, &mut ctx_b, b"there");
    exchange_data(&mut app, &mut ctx_b, h_b, &mut ctx_a, b"and back");
}

#[test]
fn closed_session_is_gone() {
    let mut app = strict();
    let (mut ctx_a, h_a, mut ctx_b, h_b) = handshake(&mut app);
    let fragments = ctx_a.send(&mut app, h_a, 128, b"late").unwrap();
    let kid: u32 =
        ctx_b.0.sessions[h_b.index].as_ref().unwrap().zeta.key_ref(false).recv.kid.unwrap();
    ctx_b.close(h_b);
    assert!(ctx_b.0.sessions[h_b.index].is_none());
    assert_eq!(ctx_b.0.session_map.get(kid), None);
    assert!(ctx_b.0.session_queue.entries.is_empty());
    assert!(matches!(ctx_b.send(&mut app, h_b, 128, b"x"), Err(SendError::SessionExpired)));
    let r = ctx_b.receive(&mut app, b"addr", fragments[0].clone(), 6000);
    assert_eq!(fault_of(&r), (FaultType::UnknownLocalKeyId, false, None));
    assert_eq!(line_of(&r), FAULT_KEY_ID);
    // Ending it again, or ending one that never was, changes nothing.
    ctx_b.close(h_b);
    ctx_b.close(SessionHandle { index: 9 });
    assert_eq!(ctx_b.0.sessions.len(), 1);
    assert!(matches!(ctx_b.send(&mut app, h_b, 128, b"x"), Err(SendError::SessionExpired)));
}

#[test]
fn completion_is_processed_once() {
    let mut app = strict();
    let mut ctx_b = context(pair_b());
    let (mut a, x1) = open_session(&mut app, 1000);
    let (b2, x2) = answer(&mut app, &x1);
    let (x3, _) = complete(&mut app, &mut a, &x2);
    ctx_b.0.unassociated_handshake_states.insert(b2, 9000);
    let bad = Outgoing {
        to: None,
        packet: Packet(KID_B, nonce(PACKET_TYPE_HANDSHAKE_COMPLETION, 1), x3.2.clone()),
        hk_send: Some(a.hk_send.clone()),
    };
    let r = deliver(&mut ctx_b, &mut app, &bad);
    assert_eq!(fault_of(&r), (FaultType::InvalidPacket, true, None));
    app.accept = None;
    app.reject_flag = true;
    let good = Outgoing {
        to: None,
        packet: x3,
        hk_send: Some(a.hk_send.clone()),
    };
    let r = deliver(&mut ctx_b, &mut app, &good);
    assert!(matches!(r.result, Err(ReceiveError::Rejected)));
    let d = r.reply.unwrap();
    let mut ctx_a = context(pair_a());
    let h = put(&mut ctx_a, a);
    let r = deliver(&mut ctx_a, &mut app, &d);
    assert!(matches!(r.result, Ok(ReceiveOk::Associated(s, SessionEvent::Rejected)) if s == h));
    // The session is no longer owned by the context.
    assert!(ctx_a.0.sessions[h.index].is_none());
    assert_eq!(ctx_a.0.session_map.get(KID_A), None);
    assert!(ctx_a.0.session_queue.entries.is_empty());
    let r = deliver(&mut ctx_b, &mut app, &good);
    assert_eq!(fault_of(&r), (FaultType::UnknownLocalKeyId, false, None));
}

#[test]
fn hello_is_challenged() {
    let mut app = strict();
    app.action = IncomingSessionAction::Challenge;
    let mut ctx_b = context(pair_b());
    let (a, x1) = open_session(&mut app, 1000);
    let n = nonce(PACKET_TYPE_HANDSHAKE_HELLO, hello_counter(&x1));
    let mut payload = x1.clone();
    payload.extend([0; CHALLENGE_SIZE]);
    let hello = Outgoing { to: None, packet: Packet(0, n, payload), hk_send: None };
    let r = deliver(&mut ctx_b, &mut app, &hello);
    assert_eq!(fault_of(&r), (FaultType::FailedAuth, false, None));
    let challenge = r.reply.unwrap();
    assert_eq!(challenge.packet.0, 0);
    assert_eq!(from_nonce(&challenge.packet.1).0, PACKET_TYPE_CHALLENGE);
    assert_eq!(challenge.packet.2.len(), 36);
    assert_eq!(challenge.packet.2[..4], x1[..4]);

    let mut ctx_a = context(pair_a());
    let h = put(&mut ctx_a, a);
    let r = deliver(&mut ctx_a, &mut app, &challenge);
    assert!(matches!(r.result, Ok(ReceiveOk::Unassociated)));
    assert_eq!(ctx_a.0.sessions[h.index].as_ref().unwrap().challenge, challenge.packet.2[4..]);

    // The hello that is sent again answers the challenge.
    let (_, packets) = ctx_a.service(&mut app, 2500);
    assert_eq!(packets.len(), 1);
    assert_eq!(packets[0].packet.1, n);
    assert!(packets[0].hk_send.is_none());
    let r = deliver(&mut ctx_b, &mut app, &packets[0]);
    assert!(matches!(r.result, Ok(ReceiveOk::Unassociated)));
    assert!(r.reply.is_some());
}

#[test]
fn hello_is_dropped() {
    let mut app = strict();
    app.action = IncomingSessionAction::Drop;
    let mut ctx = context(pair_b());
    let (_, x1) = open_session(&mut app, 1000);
    let n = nonce(PACKET_TYPE_HANDSHAKE_HELLO, hello_counter(&x1));
    let mut payload = x1.clone();
    payload.extend([0; CHALLENGE_SIZE]);
    let hello = Outgoing { to: None, packet: Packet(0, n, payload), hk_send: None };
    let r = deliver(&mut ctx, &mut app, &hello);
    assert!(matches!(r.result, Err(ReceiveError::Rejected)));
    let short = Outgoing { to: None, packet: Packet(0, n, vec![1; 40]), hk_send: None };
    let r = deliver(&mut ctx, &mut app, &short);
    assert_eq!(fault_of(&r), (FaultType::InvalidPacket, true, None));
    let long = Outgoing { to: None, packet: Packet(0, n, vec![1; 1800]), hk_send: None };
    let r = deliver(&mut ctx, &mut app, &long);
    assert_eq!(fault_of(&r), (FaultType::InvalidPacket, true, None));
}

#[test]
fn challenge_needs_a_session() {
    let mut app = strict();
    let mut ctx = context(pair_a());
    let n = nonce(PACKET_TYPE_CHALLENGE, 3);
    let unknown = Outgoing { to: None, packet: Packet(0, n, vec![1; 36]), hk_send: None };
    let r = deliver(&mut ctx, &mut app, &unknown);
    assert_eq!(fault_of(&r), (FaultType::UnknownLocalKeyId, true, None));
    let zero = Outgoing { to: None, packet: Packet(0, n, vec![0; 36]), hk_send: None };
    let r = deliver(&mut ctx, &mut app, &zero);
    assert_eq!(fault_of(&r), (FaultType::UnknownLocalKeyId, true, None));
    let long = Outgoing { to: None, packet: Packet(0, n, vec![1; 37]), hk_send: None };
    let r = deliver(&mut ctx, &mut app, &long);
    assert_eq!(fault_of(&r), (FaultType::InvalidPacket, true, None));
}

#[test]
fn hello_of_a_session_that_fails() {
    let mut app = strict();
    app.require_ratchet = true;
    let mut ctx = context(pair_b());
    let (_, x1) = open_session(&mut app, 1000);
    let n = nonce(PACKET_TYPE_HANDSHAKE_HELLO, hello_counter(&x1));
    let mut payload = x1.clone();
    payload.extend([0; CHALLENGE_SIZE]);
    let hello = Outgoing { to: None, packet: Packet(0, n, payload), hk_send: None };
    let r = deliver(&mut ctx, &mut app, &hello);
    assert_eq!(fault_of(&r), (FaultType::FailedAuth, true, None));
    assert!(ctx.0.unassociated_handshake_states.entries.is_empty());
}

#[test]
fn service_sends_again_and_expires() {
    let mut app = strict();
    let mut ctx = context(pair_a());
    assert_eq!(ctx.service(&mut app, 1000).0, 500);
    let (h, hello) = ctx.open(&mut app, pair_b().public(), 7, &identity(), 1000).ok().unwrap();
    let (wait, packets) = ctx.service(&mut app, 1800);
    assert_eq!((wait, packets.len()), (200, 0));
    let (wait, packets) = ctx.service(&mut app, 2001);
    assert_eq!((wait, packets.len()), (500, 1));
    assert_eq!(packets[0].packet.2, hello.packet.2);
    assert_eq!(packets[0].to, Some(h));
    assert_eq!(ctx.0.session_queue.entries, vec![(3001, 0)]);
    let (_, packets) = ctx.service(&mut app, 11_001);
    assert!(packets.is_empty());
    assert!(ctx.0.sessions[h.index].is_none());
    assert!(ctx.0.session_queue.entries.is_empty());
}

#[test]
fn service_asks_for_a_new_key() {
    let mut app = strict();
    let (mut ctx, h, _, _) = contexts(&mut app);
    {
        let s = ctx.0.sessions[0].as_mut().unwrap();
        s.zeta.timeout_timer = 100;
        ctx.0.session_queue.change_priority(0, 100);
    }
    let (wait, packets) = ctx.service(&mut app, 20_000);
    assert_eq!((wait, packets.len()), (500, 1));
    assert_eq!(from_nonce(&packets[0].packet.1).0, PACKET_TYPE_REKEY_INIT);
    assert!(packets[0].hk_send.is_some());
    let s = ctx.0.sessions[h.index].as_ref().unwrap();
    assert!(matches!(s.zeta.beta, ZsspAutomata::R1 { .. }));
    let kid: u32 = s.zeta.key_ref(true).recv.kid.unwrap();
    assert_eq!(ctx.0.session_map.get(kid), Some(0));
    assert_eq!(ctx.0.session_queue.entries, vec![(21_000, 0)]);
}

#[test]
fn service_sends_rekeying_packets_again() {
    let mut app = strict();
    let (mut ctx_a, h_a, mut ctx_b, h_b) = contexts(&mut app);
    for (ctx, h, timer) in [(&mut ctx_a, h_a, 100), (&mut ctx_b, h_b, 1_000_000)] {
        ctx.0.sessions[h.index].as_mut().unwrap().zeta.timeout_timer = timer;
        ctx.0.session_queue.change_priority(h.index, timer);
    }
    // The offer gets lost.
    let (_, lost) = ctx_a.service(&mut app, 3000);
    let (_, packets) = ctx_a.service(&mut app, 4001);
    assert_eq!(packets.len(), 1);
    assert_eq!(packets[0].packet.1, lost[0].packet.1);
    assert_eq!(packets[0].packet.2, lost[0].packet.2);
    let r = deliver(&mut ctx_b, &mut app, &packets[0]);
    // The answer gets lost.
    let lost = r.reply.unwrap();
    let (_, packets) = ctx_b.service(&mut app, 4500);
    assert_eq!(packets.len(), 1);
    assert_eq!(packets[0].packet.1, lost.packet.1);
    assert_eq!(packets[0].packet.2, lost.packet.2);
    let c1 = deliver(&mut ctx_a, &mut app, &packets[0]).reply.unwrap();
    let c2 = deliver(&mut ctx_b, &mut app, &c1).reply.unwrap();
    deliver(&mut ctx_a, &mut app, &c2);
    let a = &ctx_a.0.sessions[h_a.index].as_ref().unwrap().zeta;
    let b = &ctx_b.0.sessions[h_b.index].as_ref().unwrap().zeta;
    assert!(matches!(a.beta, ZsspAutomata::S2));
    assert!(matches!(b.beta, ZsspAutomata::S2));
    assert_mirrored(a, false, b, false);
}

#[test]
fn service_confirms_again() {
    let mut app = strict();
    let (_, b, _) = establish(&mut app);
    let mut ctx = context(pair_b());
    put(&mut ctx, b);
    let (_, packets) = ctx.service(&mut app, 4001);
    assert_eq!(packets.len(), 1);
    assert_eq!(from_nonce(&packets[0].packet.1), (PACKET_TYPE_KEY_CONFIRM, 1));
    let (_, packets) = ctx.service(&mut app, 5002);
    assert_eq!(from_nonce(&packets[0].packet.1), (PACKET_TYPE_KEY_CONFIRM, 2));
}

#[test]
fn service_sends_the_completion_again() {
    let mut app = strict();
    let (a, _, _) = establish(&mut app);
    let x3 = match &a.beta {
        ZsspAutomata::A3 { x3 } => x3.clone(),
        _ => panic!("no completion"),
    };
    let mut ctx = context(pair_a());
    put(&mut ctx, a);
    let (_, packets) = ctx.service(&mut app, 3500);
    assert_eq!(packets[0].packet.2, x3);
    assert_eq!(packets[0].packet.0, KID_B);
    assert_eq!(from_nonce(&packets[0].packet.1), (PACKET_TYPE_HANDSHAKE_COMPLETION, 0));
}

#[test]
fn service_drops_handshakes() {
    let mut app = strict();
    let mut ctx = context(pair_b());
    let (_, x1) = open_session(&mut app, 1000);
    let (b2, _) = answer(&mut app, &x1);
    ctx.0.unassociated_handshake_states.insert(b2, 7000);
    ctx.service(&mut app, 7000);
    assert_eq!(ctx.0.unassociated_handshake_states.find(KID_B), Some(0));
    ctx.service(&mut app, 7001);
    assert_eq!(ctx.0.unassociated_handshake_states.find(KID_B), None);
}

#[test]
fn ids_are_not_given_twice() {
    let mut app = strict();
    let (mut ctx, _, _, _) = contexts(&mut app);
    assert_eq!(ctx.free_kid(KID_A), Some(KID_A + 1));
    assert_eq!(ctx.free_kid(1), Some(1));
    let (_, x1) = open_session(&mut app, 1000);
    let (b2, _) = answer(&mut app, &x1);
    ctx.0.unassociated_handshake_states.insert(b2, 7000);
    assert_eq!(ctx.free_kid(KID_B), Some(KID_B + 1));
    assert_eq!(ctx.free_kid(u32::MAX), Some(u32::MAX));
}
