//! The dialogue with a connected peer: the version handshake, then the collection of the
//! addresses it knows.
use vstd::prelude::*;
use crate::crawler::{classify_handshake_error, handshake_failure, is_getaddr_reply_complete};
use crate::io_error::{IoError, IoErrorKind};
use crate::protocol::{
    addr_message_of, addrv2_message_of, build_version, parse_addr, parse_addrv2, parse_version,
    version_bytes, version_of, AddrParseError, ParsedAddrMessage, VersionData, VersionView,
    PROTOCOL_VERSION,
};
use crate::store::{CollectionOutcome, FailKind};
use crate::text::str_eq;
use crate::transport::{answer_ping, Envelope};

verus! {

// ---------------------------------------------------------------------------
// Handshake
// ---------------------------------------------------------------------------

/// `rand::random::<u64>()`: any number.
#[verifier::external_body]
fn random_u64() -> u64 {
    rand::random::<u64>()
}

/// The crawler's `version` payload with a random nonce.
pub fn own_version(sent_ts: i64) -> (r: Vec<u8>)
    ensures
        exists|nonce: u64| r@ == #[trigger] version_bytes(sent_ts, nonce),
{
    let nonce = random_u64();
    build_version(sent_ts, nonce)
}

/// A handshake in progress: the peer's version once it has arrived.
pub struct Handshake {
    peer: Option<VersionData>,
}

impl View for Handshake {
    type V = Option<VersionView>;

    closed spec fn view(&self) -> Option<VersionView> {
        match self.peer {
            Some(v) => Some(v@),
            None => None,
        }
    }
}

/// What a handshake does next.
pub enum HandshakeStep {
    /// Keep waiting.
    Wait,
    /// Answer a ping with this payload, then keep waiting.
    Pong(Vec<u8>),
    /// Send what [`acknowledgements`] lists, in that order, then keep waiting.
    Acknowledge { negotiate: bool },
    /// The handshake is complete.
    Complete,
    /// The handshake has failed.
    Fail { kind: FailKind, detail: String },
}

/// How a handshake ends without success.
pub enum HandshakeEnd {
    /// The peer stayed silent for the whole deadline.
    Timeout,
    /// A specific transport or protocol failure.
    Failed { kind: FailKind, detail: String },
}

/// The messages that the crawler sends during a handshake.
#[derive(Debug, Clone, Copy, PartialEq, Eq, Structural)]
pub enum HandshakeSend {
    Version,
    SendAddrV2,
    Verack,
    Pong,
}

/// The command of a message.
pub open spec fn send_command(what: HandshakeSend) -> Seq<char> {
    match what {
        HandshakeSend::Version => "version"@,
        HandshakeSend::SendAddrV2 => "sendaddrv2"@,
        HandshakeSend::Verack => "verack"@,
        HandshakeSend::Pong => "pong"@,
    }
}

impl HandshakeSend {
    /// The command of the message.
    pub fn command(self) -> (r: &'static str)
        ensures
            r@ == send_command(self),
    {
        match self {
            HandshakeSend::Version => "version",
            HandshakeSend::SendAddrV2 => "sendaddrv2",
            HandshakeSend::Verack => "verack",
            HandshakeSend::Pong => "pong",
        }
    }
}

/// The messages that acknowledge a peer's version, in the order in which they are sent, both
/// without payload: `sendaddrv2`, where it is negotiated, goes before `verack`.
pub fn acknowledgements(negotiate: bool) -> (r: Vec<HandshakeSend>)
    ensures
        r@ == if negotiate {
            seq![HandshakeSend::SendAddrV2, HandshakeSend::Verack]
        } else {
            seq![HandshakeSend::Verack]
        },
{
    let mut out: Vec<HandshakeSend> = Vec::new();
    if negotiate {
        out.push(HandshakeSend::SendAddrV2);
    }
    out.push(HandshakeSend::Verack);
    proof {
        assert(out@ =~= if negotiate {
            seq![HandshakeSend::SendAddrV2, HandshakeSend::Verack]
        } else {
            seq![HandshakeSend::Verack]
        });
    }
    out
}

/// The failure reason of a message that could not be sent.
pub open spec fn send_failure(what: HandshakeSend, e: IoError) -> FailKind {
    match what {
        HandshakeSend::Version => FailKind::VersionSendFailed,
        HandshakeSend::SendAddrV2 => FailKind::NegotiationSendFailed,
        HandshakeSend::Verack => FailKind::VerackSendFailed,
        HandshakeSend::Pong => handshake_failure(e),
    }
}

impl Handshake {
    /// A handshake that waits for the peer's version.
    pub fn new() -> (r: Self)
        ensures
            r@ is None,
    {
        Handshake { peer: None }
    }

    /// The peer's version, once it has arrived.
    pub fn peer(&self) -> (r: Option<&VersionData>)
        ensures
            match r {
                Some(v) => self@ == Some(v@),
                None => self@ is None,
            },
    {
        match &self.peer {
            Some(v) => Some(v),
            None => None,
        }
    }

    /// Takes the next message. The first `version` is kept and acknowledged; after it a
    /// `verack` completes the handshake. A ping is answered with its nonce at any time; its
    /// form is checked once the peer's version says what it has to be. Anything else is
    /// skipped.
    pub fn on_message(&mut self, env: &Envelope) -> (r: HandshakeStep)
        ensures
            match old(self)@ {
                None => if env@.command == "version"@ {
                    match version_of(env@.payload) {
                        Some(v) => final(self)@ == Some(v) && r == (HandshakeStep::Acknowledge {
                            negotiate: v.version >= PROTOCOL_VERSION,
                        }),
                        None => final(self)@ is None && (r matches HandshakeStep::Fail {
                            kind,
                            detail,
                        } && kind == FailKind::MalformedVersion && detail@
                            == "peer version payload could not be parsed"@),
                    }
                } else if env@.command == "ping"@ && env@.payload.len() == 8 {
                    final(self)@ is None && (r matches HandshakeStep::Pong(p) && p@
                        == env@.payload)
                } else {
                    r is Wait && final(self)@ is None
                },
                Some(v) => final(self)@ == old(self)@ && if env@.command == "verack"@ {
                    r is Complete
                } else if env@.command == "ping"@ {
                    if v.version > 60000 && env@.payload.len() == 8 {
                        r matches HandshakeStep::Pong(p) && p@ == env@.payload
                    } else if v.version <= 60000 && env@.payload.len() == 0 {
                        r is Wait
                    } else {
                        r matches HandshakeStep::Fail { kind, detail } && kind
                            == FailKind::ProtocolDesync && detail@
                            == "ping payload does not fit the negotiated protocol"@
                    }
                } else {
                    r is Wait
                },
            },
    {
        match &self.peer {
            None => {
                if !str_eq(&env.command, "version") {
                    if str_eq(&env.command, "ping") && env.payload.len() == 8 {
                        let mut pong: Vec<u8> = Vec::new();
                        pong.extend_from_slice(&env.payload);
                        proof {
                            assert(pong@ =~= env.payload@);
                        }
                        return HandshakeStep::Pong(pong);
                    }
                    return HandshakeStep::Wait;
                }
                match parse_version(&env.payload) {
                    Some(v) => {
                        let negotiate = v.version >= PROTOCOL_VERSION;
                        self.peer = Some(v);
                        HandshakeStep::Acknowledge { negotiate }
                    },
                    None => HandshakeStep::Fail {
                        kind: FailKind::MalformedVersion,
                        detail: "peer version payload could not be parsed".to_owned(),
                    },
                }
            },
            Some(v) => {
                if str_eq(&env.command, "verack") {
                    return HandshakeStep::Complete;
                }
                if !str_eq(&env.command, "ping") {
                    return HandshakeStep::Wait;
                }
                match answer_ping(&env.payload, v.version) {
                    Ok(Some(pong)) => HandshakeStep::Pong(pong),
                    Ok(None) => HandshakeStep::Wait,
                    Err(e) => HandshakeStep::Fail {
                        kind: classify_handshake_error(&e),
                        detail: e.message,
                    },
                }
            },
        }
    }

    /// The deadline has passed.
    pub fn on_deadline(&self) -> (r: HandshakeEnd)
        ensures
            match self@ {
                None => r is Timeout,
                Some(_) => r matches HandshakeEnd::Failed { kind, detail } && kind
                    == FailKind::PeerVerackTimeout && detail@
                    == "peer verack was not received before the handshake deadline"@,
            },
    {
        match &self.peer {
            None => HandshakeEnd::Timeout,
            Some(_) => HandshakeEnd::Failed {
                kind: FailKind::PeerVerackTimeout,
                detail: "peer verack was not received before the handshake deadline".to_owned(),
            },
        }
    }

    /// Receiving failed.
    pub fn on_error(&self, e: IoError) -> (r: HandshakeEnd)
        ensures
            r == (HandshakeEnd::Failed { kind: handshake_failure(e), detail: e.message }),
    {
        HandshakeEnd::Failed { kind: classify_handshake_error(&e), detail: e.message }
    }

    /// Sending failed.
    pub fn on_send_error(&self, what: HandshakeSend, e: IoError) -> (r: HandshakeEnd)
        ensures
            r == (HandshakeEnd::Failed { kind: send_failure(what, e), detail: e.message }),
    {
        let kind = match what {
            HandshakeSend::Version => FailKind::VersionSendFailed,
            HandshakeSend::SendAddrV2 => FailKind::NegotiationSendFailed,
            HandshakeSend::Verack => FailKind::VerackSendFailed,
            HandshakeSend::Pong => classify_handshake_error(&e),
        };
        HandshakeEnd::Failed { kind, detail: e.message }
    }
}

// ---------------------------------------------------------------------------
// Collection
// ---------------------------------------------------------------------------

/// What the collection of a peer's addresses does next.
pub enum CollectStep {
    /// Keep waiting.
    Wait,
    /// Answer a ping with this payload, then keep waiting.
    Pong(Vec<u8>),
    /// Record the addresses of a valid message.
    Addresses(ParsedAddrMessage),
    /// Quarantine a refused message, then end.
    Malformed(AddrParseError),
    /// End the collection.
    End(CollectionOutcome),
}

/// A collection in progress: whether any valid message has arrived. That is its view.
pub struct Collection {
    any_valid: bool,
}

impl View for Collection {
    type V = bool;

    closed spec fn view(&self) -> bool {
        self.any_valid
    }
}

impl Collection {
    /// A collection to which nothing has arrived yet.
    pub fn new() -> (r: Self)
        ensures
            !r@,
    {
        Collection { any_valid: false }
    }

    /// The request for addresses could not be sent.
    pub fn on_send_error(&self) -> (r: CollectionOutcome)
        ensures
            r == CollectionOutcome::SendFailed,
    {
        CollectionOutcome::SendFailed
    }

    /// The hard deadline has passed.
    pub fn on_deadline(&self) -> (r: CollectionOutcome)
        ensures
            r == if self@ {
                CollectionOutcome::PartialHardTimeout
            } else {
                CollectionOutcome::HardTimeout
            },
    {
        if self.any_valid {
            CollectionOutcome::PartialHardTimeout
        } else {
            CollectionOutcome::HardTimeout
        }
    }

    /// Nothing arrived within one receive; `partial` says that an envelope was under way.
    pub fn on_quiet(&self, partial: bool) -> (r: CollectionOutcome)
        ensures
            r == if partial {
                if self@ {
                    CollectionOutcome::PartialIncompleteEnvelopeTimeout
                } else {
                    CollectionOutcome::IncompleteEnvelopeTimeout
                }
            } else if self@ {
                CollectionOutcome::CompleteQuiet
            } else {
                CollectionOutcome::NoResponseTimeout
            },
    {
        if partial {
            self.incomplete()
        } else if self.any_valid {
            CollectionOutcome::CompleteQuiet
        } else {
            CollectionOutcome::NoResponseTimeout
        }
    }

    fn incomplete(&self) -> (r: CollectionOutcome)
        ensures
            r == if self@ {
                CollectionOutcome::PartialIncompleteEnvelopeTimeout
            } else {
                CollectionOutcome::IncompleteEnvelopeTimeout
            },
    {
        if self.any_valid {
            CollectionOutcome::PartialIncompleteEnvelopeTimeout
        } else {
            CollectionOutcome::IncompleteEnvelopeTimeout
        }
    }

    fn disconnected(&self) -> (r: CollectionOutcome)
        ensures
            r == if self@ {
                CollectionOutcome::PartialRemoteDisconnect
            } else {
                CollectionOutcome::RemoteDisconnect
            },
    {
        if self.any_valid {
            CollectionOutcome::PartialRemoteDisconnect
        } else {
            CollectionOutcome::RemoteDisconnect
        }
    }

    /// Receiving failed, or a pong could not be sent: an envelope that took too long is told
    /// apart from a lost peer.
    pub fn on_error(&self, e: &IoError) -> (r: CollectionOutcome)
        ensures
            r == if e.kind == IoErrorKind::TimedOut {
                if self@ {
                    CollectionOutcome::PartialIncompleteEnvelopeTimeout
                } else {
                    CollectionOutcome::IncompleteEnvelopeTimeout
                }
            } else if self@ {
                CollectionOutcome::PartialRemoteDisconnect
            } else {
                CollectionOutcome::RemoteDisconnect
            },
    {
        if e.kind == IoErrorKind::TimedOut {
            self.incomplete()
        } else {
            self.disconnected()
        }
    }

    /// An answer to a ping could not be sent.
    pub fn on_pong_error(&self) -> (r: CollectionOutcome)
        ensures
            r == if self@ {
                CollectionOutcome::PartialRemoteDisconnect
            } else {
                CollectionOutcome::RemoteDisconnect
            },
    {
        self.disconnected()
    }

    /// Takes the next message from a peer of the given version. Address messages of either
    /// kind are read, pings answered, and anything else skipped.
    pub fn on_message(&self, env: &Envelope, peer_version: i32) -> (r: CollectStep)
        ensures
            if env@.command == "addr"@ {
                match addr_message_of(env@.payload) {
                    Ok(m) => r matches CollectStep::Addresses(p) && p@ == m,
                    Err(e) => r == CollectStep::Malformed(e),
                }
            } else if env@.command == "addrv2"@ {
                match addrv2_message_of(env@.payload) {
                    Ok(m) => r matches CollectStep::Addresses(p) && p@ == m,
                    Err(e) => r == CollectStep::Malformed(e),
                }
            } else if env@.command == "ping"@ {
                if peer_version > 60000 && env@.payload.len() == 8 {
                    r matches CollectStep::Pong(p) && p@ == env@.payload
                } else if peer_version <= 60000 && env@.payload.len() == 0 {
                    r is Wait
                } else {
                    r == CollectStep::End(
                        if self@ {
                            CollectionOutcome::PartialRemoteDisconnect
                        } else {
                            CollectionOutcome::RemoteDisconnect
                        },
                    )
                }
            } else {
                r is Wait
            },
    {
        if str_eq(&env.command, "addr") {
            match parse_addr(&env.payload) {
                Ok(m) => CollectStep::Addresses(m),
                Err(e) => CollectStep::Malformed(e),
            }
        } else if str_eq(&env.command, "addrv2") {
            match parse_addrv2(&env.payload) {
                Ok(m) => CollectStep::Addresses(m),
                Err(e) => CollectStep::Malformed(e),
            }
        } else if str_eq(&env.command, "ping") {
            match answer_ping(&env.payload, peer_version) {
                Ok(Some(pong)) => CollectStep::Pong(pong),
                Ok(None) => CollectStep::Wait,
                Err(_) => CollectStep::End(self.disconnected()),
            }
        } else {
            CollectStep::Wait
        }
    }

    /// The addresses of a valid message have been handled; `recorded` says that they were
    /// written to the address log. A substantive reply completes the collection, and so does
    /// a log that cannot be written.
    pub fn on_recorded(&mut self, address_count: usize, recorded: bool) -> (r: Option<
        CollectionOutcome,
    >)
        ensures
            final(self)@ == (old(self)@ || recorded),
            r == if !recorded {
                Some(CollectionOutcome::LogFailed)
            } else if address_count > 1 {
                Some(CollectionOutcome::CompleteQuiet)
            } else {
                None
            },
    {
        if !recorded {
            return Some(CollectionOutcome::LogFailed);
        }
        self.any_valid = true;
        if is_getaddr_reply_complete(address_count) {
            Some(CollectionOutcome::CompleteQuiet)
        } else {
            None
        }
    }

    /// A refused message has been quarantined; `recorded` says that it was written to the
    /// address log.
    pub fn on_malformed(&self, recorded: bool) -> (r: CollectionOutcome)
        ensures
            r == if !recorded {
                CollectionOutcome::LogFailed
            } else if self@ {
                CollectionOutcome::PartialMalformedResponse
            } else {
                CollectionOutcome::MalformedResponse
            },
    {
        if !recorded {
            CollectionOutcome::LogFailed
        } else if self.any_valid {
            CollectionOutcome::PartialMalformedResponse
        } else {
            CollectionOutcome::MalformedResponse
        }
    }
}

} // verus!
