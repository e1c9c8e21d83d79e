//! Per-connection session state: Pending until the handshake payload is
//! decoded, Active while data flows, Closed once the connection ends. The
//! session routes each message by its type and enforces the protocol's
//! ordering rules.

use vstd::prelude::*;

use crate::error::ProtocolError;
use crate::handshake::{spec_decode_init, InitializationMessage};
use crate::message::{Message, MessageType};
use crate::reassembly::{spec_drain, DrainOutcome, Reassembler};

verus! {

/// Lifecycle of one logical connection.
#[derive(Clone, Copy, Debug, PartialEq, Eq, Structural)]
pub enum SessionState {
    /// No route yet: only an `Initial` message is legal.
    Pending,
    /// Handshake done: data, liveness checks and closing are legal.
    Active,
    /// Terminal: the session is dropped and its buffer released.
    Closed,
}

/// What the caller owes the collaborators after a session handled one
/// message.
#[derive(Debug, PartialEq, Eq)]
pub enum SessionAction {
    /// The handshake succeeded: announce this route to the relay.
    RouteEstablished(InitializationMessage),
    /// Hand these payload bytes to the relay for this connection.
    Forward(Vec<u8>),
    /// Answer the peer's liveness check.
    LivenessAck,
    /// The connection is finished; the session is to be removed.
    ConnectionClosed,
}

/// State of one logical tunnel: its identity, its lifecycle, the routing
/// target learned from the handshake, and the partial-frame buffer of its
/// inbound stream.
pub struct Session {
    /// Identifies the logical connection, stable for its lifetime.
    pub connection_id: u128,
    /// Where in its lifecycle this connection stands.
    pub state: SessionState,
    /// The routing target, populated exactly when the handshake succeeds.
    pub route: Option<InitializationMessage>,
    /// Reassembles this connection's inbound byte stream into frames.
    pub reassembler: Reassembler,
}

impl Session {
    /// A route exists exactly once the session has left `Pending`: none
    /// while pending, one while active.
    pub open spec fn wf(self) -> bool {
        &&& (self.state is Pending ==> self.route is None)
        &&& (self.state is Active ==> self.route is Some)
    }

    /// A fresh `Pending` session for the given connection, with an empty
    /// reassembly buffer bounded by `max_buffered`.
    pub fn new(connection_id: u128, max_buffered: usize) -> (r: Session)
        ensures
            r.connection_id == connection_id,
            r.state is Pending,
            r.route is None,
            r.reassembler.buffered() == Seq::<u8>::empty(),
            r.reassembler.capacity() == max_buffered,
            r.wf(),
    {
        Session {
            connection_id,
            state: SessionState::Pending,
            route: None,
            reassembler: Reassembler::new(max_buffered),
        }
    }

    /// Fold one transport read into this session's reassembly buffer and
    /// drain every frame now complete, leaving identity, state and route
    /// untouched.
    pub fn feed(&mut self, chunk: &Vec<u8>) -> (r: Result<Vec<Message>, ProtocolError>)
        ensures
            final(self).connection_id == old(self).connection_id,
            final(self).state == old(self).state,
            final(self).route == old(self).route,
            final(self).reassembler.capacity() == old(self).reassembler.capacity(),
            match spec_drain(old(self).reassembler.buffered() + chunk@) {
                DrainOutcome::Complete { msgs, rest } => {
                    if rest.len() <= old(self).reassembler.capacity() {
                        &&& r matches Ok(v) && v@.map_values(|m: Message| m@) == msgs
                        &&& final(self).reassembler.buffered() == rest
                    } else {
                        &&& r == Err::<Vec<Message>, ProtocolError>(ProtocolError::FrameTooLarge)
                        &&& final(self).reassembler.buffered() == Seq::<u8>::empty()
                    }
                },
                DrainOutcome::Fatal { err } => {
                    &&& r == Err::<Vec<Message>, ProtocolError>(err)
                    &&& final(self).reassembler.buffered() == Seq::<u8>::empty()
                },
            },
    {
        self.reassembler.push(chunk)
    }

    /// Route one decoded message by type, per this session's state.
    ///
    /// Pending: only `Initial` is legal; a decodable handshake payload
    /// makes the session `Active` and yields the route, anything else is a
    /// protocol violation. Active: `Data` yields its payload for the
    /// relay, `Ping` asks for a liveness answer, `Close` ends the session
    /// and releases its buffer, and a duplicate `Initial` is a violation.
    /// A violation leaves the session itself unchanged; the caller tears
    /// it down.
    pub fn handle(&mut self, msg: Message) -> (r: Result<SessionAction, ProtocolError>)
        requires
            old(self).wf(),
        ensures
            final(self).wf(),
            final(self).connection_id == old(self).connection_id,
            final(self).reassembler.capacity() == old(self).reassembler.capacity(),
            match (old(self).state, msg.message_type) {
                (SessionState::Pending, MessageType::Initial) => match spec_decode_init(
                    msg.payload@,
                ) {
                    Ok(p) => {
                        &&& r == Ok::<SessionAction, ProtocolError>(
                            SessionAction::RouteEstablished(p),
                        )
                        &&& final(self).state is Active
                        &&& final(self).route == Some(p)
                        &&& final(self).reassembler == old(self).reassembler
                    },
                    Err(_) => r == Err::<SessionAction, ProtocolError>(
                        ProtocolError::ProtocolViolation,
                    ) && *final(self) == *old(self),
                },
                (SessionState::Pending, _) => r == Err::<SessionAction, ProtocolError>(
                    ProtocolError::ProtocolViolation,
                ) && *final(self) == *old(self),
                (SessionState::Active, MessageType::Initial) => r == Err::<
                    SessionAction,
                    ProtocolError,
                >(ProtocolError::ProtocolViolation) && *final(self) == *old(self),
                (SessionState::Active, MessageType::Data) => r == Ok::<
                    SessionAction,
                    ProtocolError,
                >(SessionAction::Forward(msg.payload)) && *final(self) == *old(self),
                (SessionState::Active, MessageType::Ping) => r == Ok::<
                    SessionAction,
                    ProtocolError,
                >(SessionAction::LivenessAck) && *final(self) == *old(self),
                (SessionState::Active, MessageType::Close) => {
                    &&& r == Ok::<SessionAction, ProtocolError>(SessionAction::ConnectionClosed)
                    &&& final(self).state is Closed
                    &&& final(self).route == old(self).route
                    &&& final(self).reassembler.buffered() == Seq::<u8>::empty()
                },
                (SessionState::Closed, _) => r == Err::<SessionAction, ProtocolError>(
                    ProtocolError::ProtocolViolation,
                ) && *final(self) == *old(self),
            },
    {
        match (self.state, msg.message_type) {
            (SessionState::Pending, MessageType::Initial) => {
                match InitializationMessage::decode(&msg.payload) {
                    Ok(p) => {
                        self.state = SessionState::Active;
                        self.route = Some(p);
                        Ok(SessionAction::RouteEstablished(p))
                    },
                    Err(_) => Err(ProtocolError::ProtocolViolation),
                }
            },
            (SessionState::Pending, _) => Err(ProtocolError::ProtocolViolation),
            (SessionState::Active, MessageType::Initial) => Err(ProtocolError::ProtocolViolation),
            (SessionState::Active, MessageType::Data) => Ok(SessionAction::Forward(msg.payload)),
            (SessionState::Active, MessageType::Ping) => Ok(SessionAction::LivenessAck),
            (SessionState::Active, MessageType::Close) => {
                self.state = SessionState::Closed;
                self.reassembler.release();
                Ok(SessionAction::ConnectionClosed)
            },
            (SessionState::Closed, _) => Err(ProtocolError::ProtocolViolation),
        }
    }
}

} // verus!
