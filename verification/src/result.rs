//! What the functions of the library return, errors first.

use vstd::prelude::*;
use vstd::string::StringExecFns;

verus! {

/// Declares `std::io::Error`, which storage callbacks return and which is handed on as it is.
#[verifier::external_type_specification]
#[verifier::external_body]
pub struct ExIoError(std::io::Error);

/// Calls `std::io::Error::to_string`. The text depends on the error and, for errors of the
/// operating system, on the machine, so nothing is said of it.
#[verifier::external_body]
fn io_error_text(e: &std::io::Error) -> (r: String) {
    e.to_string()
}

/// A session of a context. A context never gives the same handle to two sessions.
#[derive(Debug, Clone, Copy, PartialEq, Eq, Structural, Hash)]
pub struct SessionHandle {
    pub index: usize,
}

/// An error that can occur when attempting to open a session.
/// Depending on the error type trying again may not work.
#[derive(Debug)]
pub enum OpenError {
    /// The given identity string was larger than `IDENTITY_MAX_SIZE`, a.k.a. 4096 bytes.
    IdentityTooLarge,
    /// No secret can be agreed with the static public key of the remote peer.
    InvalidPublicKey,
    /// An error was returned by one of the ratchet state `ApplicationLayer` callbacks.
    /// The session could not be opened as a result.
    StorageError(std::io::Error),
}

/// An error that can occur when attempting to send data over a session.
/// Depending on the error type trying again may not work.
#[derive(Debug, PartialEq, Eq, Structural, Clone, Copy, Hash)]
pub enum SendError {
    /// An invalid mtu was supplied to the function. The MTU can be no smaller than 128 bytes.
    MtuTooSmall,
    /// The session has been marked as expired and refuses to send data.
    ///
    /// The user can also explicitly cause this to occur by ending a session with `Context::close`.
    ///
    /// The associated session will no longer send or receive data and must be immediately
    /// dropped.
    SessionExpired,
    /// Attempt to send using a session without a shared symmetric key.
    /// The caller should wait until the handshake has completed.
    SessionNotEstablished,
    /// Data object is too large to send, even with fragmentation.
    DataTooLarge,
}

/// The contained session has just expired.
///
/// An expired session is no longer owned by the context.
/// Therefore it is no longer capable of sending, receiving or being serviced.
#[derive(Debug, PartialEq, Eq, Structural, Clone, Copy)]
pub struct ExpiredError(pub SessionHandle);

/// A type of fault occurred because we received a bad packet.
///
/// An unauthenticated attacker can intentionally trigger any of these, so it is best to
/// treat these as raw user input that needs to be sanitized.
#[derive(Debug, PartialEq, Eq, Structural, Clone, Copy, Hash)]
pub enum FaultType {
    /// The received packet was addressed to an unrecognized local session.
    UnknownLocalKeyId,
    /// The received packet from the remote peer was not well formed.
    InvalidPacket,
    /// Packet failed one or more authentication (MAC) checks.
    FailedAuth,
    /// Packet counter was repeated or outside window of allowed counter values.
    ExpiredCounter,
    /// Packet contained protocol control parameters that are disallowed at this point in
    /// time.
    OutOfSequence,
}

/// A type of fault that can occur because a remote peer sent us a bad packet.
/// Such packets are ignored, but a user might want to log them for debugging or tracing.
///
/// Because an unauthenticated remote peer can force these to occur with specific
/// contained information, it is recommended in production to either drop these
/// immediately, or log them safely to a local output stream and then drop them.
#[derive(Debug, Clone, Copy)]
pub struct ByzantineFault {
    /// The session associated with this fault, if there was one.
    ///
    /// The sender specified this session within their packet, but they were not authenticated,
    /// so the sender could theoretically be anyone.
    pub session: Option<SessionHandle>,
    /// This field is true if this fault caused the session it was attached to to expire.
    ///
    /// If this is true then it is guaranteed that the `session` field is occupied.
    pub caused_expiration: bool,
    /// The type of fault that has occurred. Be cautious if you choose to read this
    /// value, as an attacker has control over it.
    pub error: FaultType,
    /// Some byzantine faults are naturally occurring, i.e. they can occur
    /// between two well behaved and trusted parties executing the protocol.
    /// This boolean is false if this is one of these faults.
    ///
    /// Faults that can occur because the underlying communication medium is lossy and
    /// sequentially inconsistent (as in UDP) are considered naturally occurring.
    /// Faults that occur because data integrity has not been preserved are unnatural.
    pub unnatural: bool,
    /// The file of this library from which this error was generated.
    pub file: &'static str,
    /// A number that identifies each possible fault: one of the `FAULT_..` constants.
    pub line: u32,
}

/// An error that occurred during the receipt of a given packet.
///
/// Keep in mind that when one of these occurs it inherently means that the packet from the
/// remote peer has either not been authenticated or has failed authentication. As such, an
/// attacker could trigger any of these. These errors should only be used for debugging and
/// tracing.
#[derive(Debug)]
pub enum ReceiveError {
    /// A type of fault that can occur because a remote peer sent us a bad packet.
    ByzantineFault(ByzantineFault),
    /// Rekeying failed and session secret has reached its hard usage count limit.
    /// The associated session will no longer function and has to be dropped.
    MaxKeyLifetimeExceeded(SessionHandle),
    /// Either the `ApplicationLayer::incoming_session` or
    /// `ApplicationLayer::check_accept_session` callback rejected the remote peer's attempt to
    /// establish a new session.
    Rejected,
    /// An error was returned by one of the ratchet state `ApplicationLayer` callbacks.
    /// The received packet was dropped.
    StorageError(std::io::Error),
    /// An error was returned by the output that received data is written to.
    /// The received packet was dropped.
    WriteError(std::io::Error, SessionHandle),
}

/// Result generated by the context packet receive function, with possible payloads.
#[derive(Debug, PartialEq, Eq, Structural, Clone, Copy)]
pub enum ReceiveOk {
    /// The received packet superficially appeared valid but is not associated with a session
    /// yet. This can occur because the packet was only a fragment of a larger packet,
    /// or if it was a control packet that does not go through full Noise authentication.
    Unassociated,
    /// The received packet was authentic and belongs to this specific session.
    Associated(SessionHandle, SessionEvent),
    /// The received packet was a fragment of a larger packet.
    ///
    /// ***The authenticity of this fragment cannot be fully known yet.***
    /// This return value should only be used for debugging and tracing purposes.
    Fragment(SessionHandle),
}

/// Something that can occur to an associated session when a packet is received successfully,
/// including receiving a payload of decrypted, authenticated data.
#[derive(Debug, PartialEq, Eq, Structural, Clone, Copy, Hash)]
pub enum SessionEvent {
    /// The received packet was valid, and it contained the necessary keys to fully establish a
    /// new session with Alice, the handshake initiator.
    NewSession,
    /// The received packet was valid, and it contained the necessary keys to fully establish a
    /// new session with Alice, the handshake initiator.
    ///
    /// However Alice did not have the correct ratchet key. Alice has partially failed
    /// authentication, but we as Bob are configured to only emit a warning and still allow
    /// Alice to connect. See `ApplicationLayer::check_accept_session`.
    NewDowngradedSession,
    /// Alice will receive this return value when the received packet confirms both parties
    /// have completed the initial handshake and now have a shared session with each other.
    ///
    /// This return value can only occur once per session, only for sessions that were
    /// created with `Context::open`.
    Established,
    /// Bob explicitly refused to establish a session with Alice.
    /// The application should immediately drop this session as Bob will not allow us to
    /// connect.
    ///
    /// This return value cannot occur after a session is fully established.
    Rejected,
    /// The received packet was valid and a data payload was decoded and authenticated.
    Data,
    /// The received packet was some authentic protocol control packet. No action needs to be
    /// taken.
    Control,
    /// In the process of establishing a session with Bob, Bob did not have the correct ratchet
    /// key. Bob has partially failed authentication, but we as Alice are configured to only
    /// emit a warning and still allow Bob to connect.
    /// See `ApplicationLayer::initiator_disallows_downgrade`.
    DowngradedRatchetKey,
}

/// Why a transition of a session did not take place.
#[derive(Debug)]
pub enum ZetaError {
    /// The packet failed authentication, or is not of the form that its type has.
    FailedAuthentication,
    /// The packet does not fit the present state of the session.
    OutOfSequence,
    /// An error was returned by one of the ratchet state `ApplicationLayer` callbacks.
    RatchetIoError(std::io::Error),
    /// The application refused the remote peer's attempt to establish a session.
    Rejected,
}

/// The header of a fragment makes no sense.
pub const FAULT_FRAGMENT_HEADER: u32 = 1;

/// A response came to a session that waits for none.
pub const FAULT_RESPONSE_STAGE: u32 = 2;

/// The counter of a response is too large.
pub const FAULT_RESPONSE_COUNTER: u32 = 3;

/// The counter of a packet was received before, or is outside of the window.
pub const FAULT_EXPIRED_COUNTER: u32 = 4;

/// A completion came to a session that is established.
pub const FAULT_COMPLETION_REPEATED: u32 = 5;

/// A packet to a session is of no type that a session takes.
pub const FAULT_SESSION_PACKET_TYPE: u32 = 6;

/// The fragments of a packet to a session are too large together.
pub const FAULT_SESSION_PACKET_SIZE: u32 = 7;

/// Data is not authentic.
pub const FAULT_DATA_AUTH: u32 = 8;

/// Data came that there is no key for.
pub const FAULT_DATA_STAGE: u32 = 9;

/// A response is not authentic.
pub const FAULT_RESPONSE_AUTH: u32 = 10;

/// A response does not fit the session.
pub const FAULT_RESPONSE_SEQUENCE: u32 = 11;

/// A key confirmation is not authentic.
pub const FAULT_CONFIRMATION_AUTH: u32 = 12;

/// A key confirmation came that there is no key for.
pub const FAULT_CONFIRMATION_STAGE: u32 = 13;

/// An acknowledgement is not authentic.
pub const FAULT_ACKNOWLEDGEMENT_AUTH: u32 = 14;

/// An acknowledgement came to a session that waits for none.
pub const FAULT_ACKNOWLEDGEMENT_STAGE: u32 = 15;

/// A rekeying offer is not authentic.
pub const FAULT_REKEY_AUTH: u32 = 16;

/// A rekeying offer came to a session that takes none.
pub const FAULT_REKEY_STAGE: u32 = 17;

/// The answer to a rekeying offer is not authentic.
pub const FAULT_REKEY_ANSWER_AUTH: u32 = 18;

/// The answer to a rekeying offer came to a session that made none.
pub const FAULT_REKEY_ANSWER_STAGE: u32 = 19;

/// A refusal is not authentic.
pub const FAULT_REJECTION_AUTH: u32 = 20;

/// A refusal came to a session that waits for none.
pub const FAULT_REJECTION_STAGE: u32 = 21;

/// A packet to a handshake is no completion.
pub const FAULT_COMPLETION_HEADER: u32 = 22;

/// The fragments of a completion are too large together.
pub const FAULT_COMPLETION_SIZE: u32 = 23;

/// A completion is not authentic, or its ratchet state is not accepted.
pub const FAULT_COMPLETION_AUTH: u32 = 24;

/// A completion does not fit its handshake.
pub const FAULT_COMPLETION_STAGE: u32 = 25;

/// A hello is of no size that a hello has.
pub const FAULT_HELLO_SIZE: u32 = 26;

/// A hello does not answer the challenge.
pub const FAULT_HELLO_CHALLENGED: u32 = 27;

/// A hello is not authentic, or names no ratchet state that is known.
pub const FAULT_HELLO_AUTH: u32 = 28;

/// A hello does not fit.
pub const FAULT_HELLO_STAGE: u32 = 29;

/// A challenge is not of the size that a challenge has.
pub const FAULT_CHALLENGE_SIZE: u32 = 30;

/// A challenge is for no session.
pub const FAULT_CHALLENGE_KEY_ID: u32 = 31;

/// The fragments of a packet to no session are too large together.
pub const FAULT_UNASSOCIATED_SIZE: u32 = 32;

/// A packet to no session is neither a hello nor a challenge.
pub const FAULT_UNASSOCIATED_TYPE: u32 = 33;

/// A packet is for no session and for no handshake.
pub const FAULT_KEY_ID: u32 = 34;

/// A packet is too short.
pub const FAULT_PACKET_SIZE: u32 = 35;

/// The file of this library from which a fault is generated.
pub open spec fn fault_file(line: u32) -> Seq<char> {
    if line <= FAULT_FRAGMENT_HEADER {
        "src/wire.rs"@
    } else if line <= FAULT_REJECTION_STAGE {
        "src/session.rs"@
    } else {
        "src/context/receive.rs"@
    }
}

/// `e` is the fault `line`, which is of this type, met on the way to `session` and without
/// consequences for it.
pub open spec fn is_fault(
    e: ReceiveError,
    error: FaultType,
    unnatural: bool,
    session: Option<SessionHandle>,
    line: u32,
) -> bool {
    e matches ReceiveError::ByzantineFault(f) && f.error == error && f.unnatural == unnatural
        && f.session == session && !f.caused_expiration && f.line == line && f.file@
        == fault_file(line)
}

/// The fault `line`, which is of this type.
pub fn fault(
    error: FaultType,
    unnatural: bool,
    session: Option<SessionHandle>,
    line: u32,
) -> (r: ReceiveError)
    ensures
        is_fault(r, error, unnatural, session, line),
{
    let file: &'static str = if line <= FAULT_FRAGMENT_HEADER {
        "src/wire.rs"
    } else if line <= FAULT_REJECTION_STAGE {
        "src/session.rs"
    } else {
        "src/context/receive.rs"
    };
    ReceiveError::ByzantineFault(
        ByzantineFault { session, caused_expiration: false, error, unnatural, file, line },
    )
}

/// `e` is how a context reports that a transition did not take place. A packet that is not
/// authentic is the fault `auth`, one that does not fit the fault `stage`.
pub open spec fn is_error_of(
    e: ReceiveError,
    cause: ZetaError,
    session: Option<SessionHandle>,
    auth: u32,
    stage: u32,
) -> bool {
    match cause {
        ZetaError::FailedAuthentication => is_fault(
            e,
            FaultType::FailedAuth,
            true,
            session,
            auth,
        ),
        ZetaError::OutOfSequence => is_fault(e, FaultType::OutOfSequence, false, session, stage),
        ZetaError::RatchetIoError(io) => e == ReceiveError::StorageError(io),
        ZetaError::Rejected => e == ReceiveError::Rejected,
    }
}

/// How a context reports that a transition did not take place.
pub fn error_of(
    cause: ZetaError,
    session: Option<SessionHandle>,
    auth: u32,
    stage: u32,
) -> (r: ReceiveError)
    ensures
        is_error_of(r, cause, session, auth, stage),
{
    match cause {
        ZetaError::FailedAuthentication => fault(FaultType::FailedAuth, true, session, auth),
        ZetaError::OutOfSequence => fault(FaultType::OutOfSequence, false, session, stage),
        ZetaError::RatchetIoError(io) => ReceiveError::StorageError(io),
        ZetaError::Rejected => ReceiveError::Rejected,
    }
}

impl SendError {
    /// What the error says of itself.
    pub open spec fn text(self) -> Seq<char> {
        match self {
            SendError::MtuTooSmall => "mtu too small"@,
            SendError::SessionExpired => "session has expired"@,
            SendError::SessionNotEstablished => "session not established"@,
            SendError::DataTooLarge => "data too large"@,
        }
    }

    /// What the error says of itself.
    pub fn message(&self) -> (r: &'static str)
        ensures
            r@ == self.text(),
    {
        match self {
            SendError::MtuTooSmall => "mtu too small",
            SendError::SessionExpired => "session has expired",
            SendError::SessionNotEstablished => "session not established",
            SendError::DataTooLarge => "data too large",
        }
    }
}

impl FaultType {
    /// What the fault says of itself.
    pub open spec fn text(self) -> Seq<char> {
        match self {
            FaultType::UnknownLocalKeyId => "packet contained an unknown key id"@,
            FaultType::InvalidPacket => "invalid packet received"@,
            FaultType::FailedAuth => "packet failed authentication"@,
            FaultType::ExpiredCounter => "packet used an expired counter"@,
            FaultType::OutOfSequence => "packet arrived out of sequence"@,
        }
    }

    /// What the fault says of itself.
    pub fn message(&self) -> (r: &'static str)
        ensures
            r@ == self.text(),
    {
        match self {
            FaultType::UnknownLocalKeyId => "packet contained an unknown key id",
            FaultType::InvalidPacket => "invalid packet received",
            FaultType::FailedAuth => "packet failed authentication",
            FaultType::ExpiredCounter => "packet used an expired counter",
            FaultType::OutOfSequence => "packet arrived out of sequence",
        }
    }
}

impl ExpiredError {
    /// What the error says of itself.
    pub fn message(&self) -> (r: &'static str)
        ensures
            r@ == "session expired"@,
    {
        "session expired"
    }
}

impl OpenError {
    /// What the error says of itself, where `storage` is what the error that it carries says.
    pub open spec fn text(self, storage: Seq<char>) -> Seq<char> {
        match self {
            OpenError::IdentityTooLarge => "identity too large"@,
            OpenError::InvalidPublicKey => "invalid public key"@,
            OpenError::StorageError(_) => storage,
        }
    }

    /// What the error says of itself, where `storage` is what the error that it carries says.
    pub fn message_with(&self, storage: String) -> (r: String)
        ensures
            r@ == self.text(storage@),
    {
        match self {
            OpenError::IdentityTooLarge => "identity too large".to_string(),
            OpenError::InvalidPublicKey => "invalid public key".to_string(),
            OpenError::StorageError(_) => storage,
        }
    }

    /// What the error says of itself.
    pub fn message(&self) -> (r: String)
        ensures
            exists|storage: Seq<char>| r@ == #[trigger] self.text(storage),
    {
        let storage = match self {
            OpenError::StorageError(e) => io_error_text(e),
            _ => "".to_string(),
        };
        self.message_with(storage)
    }
}

impl ByzantineFault {
    /// The file of this library from which this error was generated.
    pub fn file(&self) -> (r: &'static str)
        ensures
            r@ == self.file@,
    {
        self.file
    }

    /// A number that identifies each possible fault.
    pub fn line(&self) -> (r: u32)
        ensures
            r == self.line,
    {
        self.line
    }

    /// What the fault says of itself: its type, and where in the library it was generated.
    /// `line` is the decimal form of the line number.
    pub open spec fn text(self, line: Seq<char>) -> Seq<char> {
        self.error.text() + " ("@ + self.file@ + ":"@ + line + ")"@
    }

    /// What the fault says of itself: its type, and where in the library it was generated.
    pub fn message(&self) -> (r: String)
        ensures
            r@ == self.text(decimal(self.line as nat)),
    {
        let mut r: String = self.error.message().to_string();
        r.append(" (");
        r.append(self.file);
        r.append(":");
        r.append(decimal_text(self.line).as_str());
        r.append(")");
        r
    }
}

impl ReceiveError {
    /// What the error says of itself, where `carried` is what the I/O error that it carries
    /// says.
    pub open spec fn text(self, carried: Seq<char>) -> Seq<char> {
        match self {
            ReceiveError::ByzantineFault(e) => e.text(decimal(e.line as nat)),
            ReceiveError::MaxKeyLifetimeExceeded(_) => "max key lifetime exceeded"@,
            ReceiveError::Rejected => "attempt to establish session rejected"@,
            ReceiveError::StorageError(_) => carried,
            ReceiveError::WriteError(_, _) => carried,
        }
    }

    /// What the error says of itself, where `carried` is what the I/O error that it carries
    /// says.
    pub fn message_with(&self, carried: String) -> (r: String)
        ensures
            r@ == self.text(carried@),
    {
        match self {
            ReceiveError::ByzantineFault(e) => e.message(),
            ReceiveError::MaxKeyLifetimeExceeded(_) => "max key lifetime exceeded".to_string(),
            ReceiveError::Rejected => "attempt to establish session rejected".to_string(),
            ReceiveError::StorageError(_) => carried,
            ReceiveError::WriteError(_, _) => carried,
        }
    }

    /// What the error says of itself.
    pub fn message(&self) -> (r: String)
        ensures
            exists|carried: Seq<char>| r@ == #[trigger] self.text(carried),
    {
        let carried = match self {
            ReceiveError::StorageError(e) => io_error_text(e),
            ReceiveError::WriteError(e, _) => io_error_text(e),
            _ => "".to_string(),
        };
        self.message_with(carried)
    }
}

/// The decimal digit of a number below ten.
pub open spec fn digit(d: nat) -> Seq<char> {
    if d == 0 {
        "0"@
    } else if d == 1 {
        "1"@
    } else if d == 2 {
        "2"@
    } else if d == 3 {
        "3"@
    } else if d == 4 {
        "4"@
    } else if d == 5 {
        "5"@
    } else if d == 6 {
        "6"@
    } else if d == 7 {
        "7"@
    } else if d == 8 {
        "8"@
    } else {
        "9"@
    }
}

/// The decimal form of a number.
pub open spec fn decimal(n: nat) -> Seq<char>
    decreases n,
{
    if n < 10 {
        digit(n)
    } else {
        decimal(n / 10) + digit(n % 10)
    }
}

/// The decimal digit of a number below ten.
fn digit_text(d: u32) -> (r: &'static str)
    requires
        d < 10,
    ensures
        r@ == digit(d as nat),
{
    match d {
        0 => "0",
        1 => "1",
        2 => "2",
        3 => "3",
        4 => "4",
        5 => "5",
        6 => "6",
        7 => "7",
        8 => "8",
        _ => "9",
    }
}

/// The decimal form of a number.
fn decimal_text(n: u32) -> (r: String)
    ensures
        r@ == decimal(n as nat),
    decreases n,
{
    if n < 10 {
        digit_text(n).to_string()
    } else {
        decimal_text(n / 10).concat(digit_text(n % 10))
    }
}

} // verus!
