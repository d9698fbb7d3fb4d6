# zssp

A session protocol for peers that know each other's static keys: a Noise XK handshake hardened
with Kyber-1024 and ratchet keys, rekeying inside established sessions, fragmentation, header
protection, and replay protection. The library is written in Verus, and its contracts are proved.

- `src/zeta.rs` and `src/zeta/`: the state machine of a session, one file for each step of its key
  exchanges. `laws.rs` states what holds between the two ends message by message, `exchange.rs` that
  a handshake and a rekeying of two peers that behave as they should complete with mirrored keys,
  and `run.rs` what holds of a session over any sequence of transitions.
- `src/symmetric_state.rs`, `src/crypto.rs`, `src/kyber.rs`, `src/ratchet_state.rs`,
  `src/secret.rs`: the state of a handshake and the primitives that it is built from. An
  application supplies all of them but Kyber.
- `src/wire.rs`, `src/outgoing.rs`, `src/packet_buffer.rs`, `src/fragged.rs`,
  `src/frag_cache.rs`, `src/window.rs`: headers, fragments, and the window of received counters.
- `src/session.rs`, `src/timers.rs`: a session together with its window, its fragments and its
  timers.
- `src/context.rs` and `src/context/`: the context that owns the sessions: opening, receiving,
  sending, servicing, ending sessions. `run.rs` states what holds over any sequence of calls, and
  `silence.rs` what a context does not answer.
- `src/laws.rs`: what holds between two contexts, and of one over time.
- `app/`: sharing a context between threads, and putting its packets on the wire.

Contracts are stated over views: `Zeta` as `ZetaView`, a session as `SessionView`, a context as
`ContextView`. Whatever an outside party decides (a random number, a storage callback, a decision
of the application) is named in the contract of the function that asks for it; the functions that
go on from the answer take it as an argument and have exact contracts. A callback may change the
application, so a contract by which the application comes out as it went in says that no callback
was called.
