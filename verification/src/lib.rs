//! A session protocol: a Noise XK handshake hardened with Kyber and ratchet keys,
//! rekeying inside established sessions, fragmentation, and replay protection.

pub mod application;
pub mod bytes;
pub mod challenge;
pub mod context;
pub mod crypto;
pub mod expiry;
pub mod frag_cache;
pub mod fragged;
pub mod handshake_cache;
pub mod kyber;
pub mod laws;
pub mod outgoing;
pub mod packet_buffer;
pub mod processing;
pub mod proto;
pub mod random;
pub mod ratchet_state;
pub mod result;
pub mod secret;
pub mod session;
pub mod session_map;
pub mod session_queue;
pub mod symmetric_state;
pub mod timers;
pub mod window;
pub mod wire;
pub mod zeta;
