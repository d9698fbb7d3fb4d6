//! Data that goes over a session.

use vstd::prelude::*;

use crate::application::{ApplicationLayer, Settings};
use crate::bytes::append;
use crate::proto::{AES_GCM_IV_SIZE, AES_GCM_TAG_SIZE, PACKET_TYPE_DATA};
use crate::result::{SendError, ZetaError};
use crate::zeta::sealed::{open_packet, packet_opened, packet_sealed, seal_packet};
use crate::zeta::{nonce, nonce_spec, Packet, PacketView, Zeta, ZetaView, ZsspAutomata};

verus! {

impl<App: ApplicationLayer> ZetaView<App> {
    /// There is a current key to send data with.
    pub open spec fn can_send(self) -> bool {
        self.beta is S1 || self.beta is S2 || self.beta is R1 || self.beta is R2
    }

    /// The session after a use of its key: it expires once the key has been used too often,
    /// and asks for a new key at once when that is near.
    pub open spec fn used(self, settings: Settings) -> Self {
        let z = ZetaView { send_counter: (self.send_counter + 1) as u64, ..self };
        if self.send_counter >= self.key_creation_counter + settings.expire_after_uses {
            z.expired()
        } else if self.send_counter >= self.key_creation_counter + settings.rekey_after_uses {
            ZetaView { timeout_timer: i64::MIN, ..z }
        } else {
            z
        }
    }

    /// The packet that carries `payload`.
    pub open spec fn data_packet(self, payload: Seq<u8>) -> PacketView {
        let n = nonce_spec(PACKET_TYPE_DATA, self.send_counter);
        PacketView {
            kid: self.key(false).send.kid->0,
            nonce: n,
            payload: packet_sealed::<App>(self.key(false).send.nk->0, n, payload),
        }
    }

    /// `after` and `r` are what comes of sending `payload`.
    pub open spec fn data_sent(
        self,
        settings: Settings,
        payload: Seq<u8>,
        after: Self,
        r: Result<Packet, SendError>,
    ) -> bool {
        if self.beta is Null {
            after == self && r == Err::<Packet, SendError>(SendError::SessionExpired)
        } else if !self.can_send() {
            after == self && r == Err::<Packet, SendError>(SendError::SessionNotEstablished)
        } else {
            &&& after == self.used(settings)
            &&& r matches Ok(p)
            &&& p@ == self.data_packet(payload)
        }
    }

    /// The keys that a packet to the id `kid` is for: the ones that will follow (`true`), the
    /// current ones (`false`), or none.
    pub open spec fn keys_of(self, kid: u32) -> Option<bool> {
        if self.key(true).recv.kid == Some(kid) {
            Some(true)
        } else if self.key(false).recv.kid == Some(kid) {
            Some(false)
        } else {
            None
        }
    }

    /// What comes of the data packet `packet` to the id `kid`: what it carries, with the tag
    /// still behind it.
    pub open spec fn received(self, kid: u32, n: Seq<u8>, packet: Seq<u8>) -> Result<
        Seq<u8>,
        ZetaError,
    > {
        if packet.len() < AES_GCM_TAG_SIZE {
            Err(ZetaError::FailedAuthentication)
        } else {
            match self.keys_of(kid) {
                None => Err(ZetaError::OutOfSequence),
                Some(is_next) => match self.key(is_next).recv.nk {
                    None => Err(ZetaError::OutOfSequence),
                    Some(nk) => match packet_opened::<App>(nk, n, packet) {
                        None => Err(ZetaError::FailedAuthentication),
                        Some(plain) => Ok(
                            plain + packet.subrange(
                                packet.len() - AES_GCM_TAG_SIZE,
                                packet.len() as int,
                            ),
                        ),
                    },
                },
            }
        }
    }
}

impl<App: ApplicationLayer> Zeta<App> {
    /// The keys that a packet to the id `kid` is for: the ones that will follow (`true`), the
    /// current ones (`false`), or none.
    pub fn keys_for(&self, kid: u32) -> (r: Option<bool>)
        ensures
            r == self@.keys_of(kid),
    {
        if let Some(kid_recv) = self.key_ref(true).recv.kid {
            if kid_recv == kid {
                return Some(true);
            }
        }
        if let Some(kid_recv) = self.key_ref(false).recv.kid {
            if kid_recv == kid {
                return Some(false);
            }
        }
        None
    }

    /// Says whether there is a current key to send data with.
    pub fn is_established(&self) -> (r: bool)
        ensures
            r == self@.can_send(),
    {
        match &self.beta {
            ZsspAutomata::S1 => true,
            ZsspAutomata::S2 => true,
            ZsspAutomata::R1 { .. } => true,
            ZsspAutomata::R2 { .. } => true,
            _ => false,
        }
    }

    /// Seals `payload` with the current key.
    pub fn send(&mut self, settings: &Settings, payload: Vec<u8>) -> (r: Result<
        Packet,
        SendError,
    >)
        requires
            old(self)@.wf(),
            old(self)@.can_send() ==> old(self)@.send_counter < u64::MAX,
        ensures
            old(self)@.data_sent(*settings, payload@, final(self)@, r),
            final(self)@.wf(),
            r matches Ok(p) ==> p@.payload.len() == payload@.len() + AES_GCM_TAG_SIZE,
    {
        match &self.beta {
            ZsspAutomata::Null => return Err(SendError::SessionExpired),
            ZsspAutomata::A1 { .. } => return Err(SendError::SessionNotEstablished),
            ZsspAutomata::A3 { .. } => return Err(SendError::SessionNotEstablished),
            _ => {},
        }
        let mut payload = payload;
        let c = self.send_counter;
        let uses: u64 = c - self.key_creation_counter;
        if uses >= settings.expire_after_uses {
            self.expire();
        } else if uses >= settings.rekey_after_uses {
            self.timeout_timer = i64::MIN;
        }
        self.send_counter += 1;

        let n = nonce(PACKET_TYPE_DATA, c);
        let keys = self.key_ref(false);
        seal_packet::<App>(keys.send.nk.as_ref().unwrap(), &n, &mut payload);
        Ok(Packet(keys.send.kid.unwrap(), n, payload))
    }

    /// Opens the data packet `payload` to the id `kid`: what it carries, with the tag still
    /// behind it.
    pub fn recv(&self, kid: u32, n: [u8; AES_GCM_IV_SIZE], payload: Vec<u8>) -> (r: Result<
        Vec<u8>,
        ZetaError,
    >)
        ensures
            match self@.received(kid, n@, payload@) {
                Ok(data) => r matches Ok(d) && d@ == data && d@.len() == payload@.len(),
                Err(e) => r == Err::<Vec<u8>, ZetaError>(e),
            },
    {
        if payload.len() < AES_GCM_TAG_SIZE {
            return Err(ZetaError::FailedAuthentication);
        }
        let is_next = match self.keys_for(kid) {
            Some(is_next) => is_next,
            None => return Err(ZetaError::OutOfSequence),
        };
        match &self.key_ref(is_next).recv.nk {
            None => Err(ZetaError::OutOfSequence),
            Some(nk) => match open_packet::<App>(nk, &n, &payload) {
                None => Err(ZetaError::FailedAuthentication),
                Some(data) => {
                    let mut data = data;
                    let i: usize = payload.len() - AES_GCM_TAG_SIZE;
                    append(
                        &mut data,
                        vstd::slice::slice_subrange(payload.as_slice(), i, payload.len()),
                    );
                    Ok(data)
                },
            },
        }
    }
}

} // verus!
