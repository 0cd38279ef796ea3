//! One peer's connection: its lifecycle `Connecting -> Handshaking ->
//! Negotiating -> Established -> Closing -> Closed`, its session and its
//! negotiated extension table, and the routing of application frames.
use vstd::prelude::*;

use crate::handshake::{HandshakeError, Session};
use crate::negotiation::NegotiatedTable;
use crate::types::{NodeId, PeerAddress};

verus! {

#[derive(Clone, Copy, Debug, PartialEq, Eq, Structural)]
pub enum ConnectionState {
    Connecting,
    Handshaking,
    Negotiating,
    Established,
    Closing,
    Closed,
}

/// Why a connection was closed.
#[derive(Clone, Copy, Debug, PartialEq, Eq, Structural)]
pub enum CloseReason {
    IoError,
    Timeout,
    Removed,
    Evicted,
    Handshake(HandshakeError),
    /// The peer sent bytes that do not decode.
    ProtocolViolation,
}

/// Why an outbound frame could not be sent.
#[derive(Clone, Copy, Debug, PartialEq, Eq, Structural)]
pub enum SendError {
    /// No established connection to that node.
    PeerNotConnected,
    /// The connection does not run that extension.
    ExtensionNotNegotiated,
}

/// An application frame: the payload of one extension, tagged with the
/// extension's slot in the connection's negotiated table.
pub struct ApplicationFrame {
    pub slot: usize,
    pub payload: Vec<u8>,
}

pub struct Connection {
    pub address: PeerAddress,
    pub node: Option<NodeId>,
    pub state: ConnectionState,
    pub session: Option<Session>,
    pub extensions: Option<NegotiatedTable>,
    pub close_reason: Option<CloseReason>,
}

/// The state can still move on: it is neither closing nor closed.
pub open spec fn is_live(s: ConnectionState) -> bool {
    !(s is Closing || s is Closed)
}

impl Connection {
    /// A connection just accepted or dialled, as a value.
    pub open spec fn new_spec(address: PeerAddress) -> Connection {
        Connection {
            address,
            node: None,
            state: ConnectionState::Connecting,
            session: None,
            extensions: None,
            close_reason: None,
        }
    }

    /// Well-formed: the session and the table exist only in the states that
    /// own them, and both are gone once the connection is closing.
    pub open spec fn wf(&self) -> bool {
        &&& (self.state is Connecting || self.state is Handshaking) ==> self.session is None
            && self.node is None
        &&& !(self.state is Established) ==> self.extensions is None
        &&& (self.state is Negotiating || self.state is Established) ==> self.node is Some
        &&& self.state is Established ==> self.extensions is Some
        &&& !is_live(self.state) ==> self.session is None && self.close_reason is Some
        &&& is_live(self.state) ==> self.close_reason is None
    }

    /// A connection just accepted or dialled.
    pub fn new(address: PeerAddress) -> (r: Connection)
        ensures
            r.wf(),
            r == Connection::new_spec(address),
    {
        Connection {
            address,
            node: None,
            state: ConnectionState::Connecting,
            session: None,
            extensions: None,
            close_reason: None,
        }
    }

    pub fn is_established(&self) -> (r: bool)
        ensures
            r == (self.state is Established),
    {
        matches!(self.state, ConnectionState::Established)
    }

    /// The stream is open: the handshake begins.
    pub fn begin_handshake(&mut self) -> (r: bool)
        requires
            old(self).wf(),
        ensures
            final(self).wf(),
            final(self).address == old(self).address,
            r == (old(self).state is Connecting),
            r ==> final(self).state == ConnectionState::Handshaking,
            !r ==> *final(self) == *old(self),
    {
        if matches!(self.state, ConnectionState::Connecting) {
            self.state = ConnectionState::Handshaking;
            true
        } else {
            false
        }
    }

    /// The handshake succeeded: the session is installed and negotiation begins.
    pub fn authenticated(&mut self, node: NodeId, session: Session) -> (r: bool)
        requires
            old(self).wf(),
        ensures
            final(self).wf(),
            final(self).address == old(self).address,
            r == (old(self).state is Handshaking),
            r ==> final(self).state == ConnectionState::Negotiating && final(self).node == Some(
                node,
            ) && final(self).session == Some(session),
            !r ==> *final(self) == *old(self),
    {
        if matches!(self.state, ConnectionState::Handshaking) {
            self.state = ConnectionState::Negotiating;
            self.node = Some(node);
            self.session = Some(session);
            true
        } else {
            false
        }
    }

    /// Negotiation built the table: the connection is established. The
    /// table is kept as given and never changes afterwards.
    pub fn negotiated(&mut self, table: NegotiatedTable) -> (r: bool)
        requires
            old(self).wf(),
        ensures
            final(self).wf(),
            final(self).address == old(self).address,
            final(self).node == old(self).node,
            final(self).session == old(self).session,
            r == (old(self).state is Negotiating),
            r ==> final(self).state == ConnectionState::Established && final(self).extensions.unwrap()@ == table@,
            !r ==> *final(self) == *old(self),
    {
        if matches!(self.state, ConnectionState::Negotiating) {
            self.state = ConnectionState::Established;
            self.extensions = Some(table);
            true
        } else {
            false
        }
    }

    /// Moves any live connection to `Closing`, zeroing its session and
    /// dropping its table. Closing twice changes nothing the second time.
    pub fn close(&mut self, reason: CloseReason) -> (r: bool)
        requires
            old(self).wf(),
        ensures
            final(self).wf(),
            final(self).address == old(self).address,
            final(self).node == old(self).node,
            r == is_live(old(self).state),
            r ==> final(self).state == ConnectionState::Closing && final(self).session is None
                && final(self).extensions is None && final(self).close_reason == Some(reason),
            !r ==> *final(self) == *old(self),
    {
        if is_live_state(self.state) {
            self.state = ConnectionState::Closing;
            self.session = None;
            self.extensions = None;
            self.close_reason = Some(reason);
            true
        } else {
            false
        }
    }

    /// The stream has been shut: `Closing` becomes `Closed`.
    pub fn finish_close(&mut self) -> (r: bool)
        requires
            old(self).wf(),
        ensures
            final(self).wf(),
            final(self).address == old(self).address,
            final(self).node == old(self).node,
            final(self).close_reason == old(self).close_reason,
            r == (old(self).state is Closing),
            r ==> final(self).state == ConnectionState::Closed && final(self).session is None,
            !r ==> *final(self) == *old(self),
    {
        if matches!(self.state, ConnectionState::Closing) {
            self.state = ConnectionState::Closed;
            true
        } else {
            false
        }
    }

    /// Close and shut in one step: the connection ends `Closed`, and a
    /// connection that was already closing or closed keeps its first reason.
    pub fn shut(&mut self, reason: CloseReason)
        requires
            old(self).wf(),
        ensures
            final(self).wf(),
            final(self).address == old(self).address,
            final(self).node == old(self).node,
            final(self).state == ConnectionState::Closed,
            final(self).session is None,
            final(self).extensions is None,
            is_live(old(self).state) ==> final(self).close_reason == Some(reason),
            !is_live(old(self).state) ==> final(self).close_reason == old(self).close_reason,
    {
        self.close(reason);
        self.finish_close();
    }

    /// The extension that an inbound frame on `slot` belongs to, with its
    /// version. Frames before `Established`, or on a slot the table does not
    /// hold, are dropped (`None`).
    pub fn route_inbound(&self, slot: usize) -> (r: Option<(&String, u64)>)
        requires
            self.wf(),
        ensures
            !(self.state is Established) ==> r is None,
            self.state is Established ==> ({
                let t = self.extensions.unwrap()@;
                &&& slot < t.len() ==> (r matches Some((n, v)) && n@ == t[slot as int].0 && v
                    == t[slot as int].1)
                &&& slot >= t.len() ==> r is None
            }),
    {
        match &self.extensions {
            Some(t) => if matches!(self.state, ConnectionState::Established) {
                t.get(slot)
            } else {
                None
            },
            None => None,
        }
    }

    /// Frames `payload` for the extension called `name`, tagged with its slot.
    pub fn frame_outbound(&self, name: &String, payload: Vec<u8>) -> (r: Result<
        ApplicationFrame,
        SendError,
    >)
        requires
            self.wf(),
        ensures
            !(self.state is Established) ==> r == Err::<ApplicationFrame, SendError>(
                SendError::PeerNotConnected,
            ),
            self.state is Established ==> ({
                let t = self.extensions.unwrap()@;
                &&& (exists|i: int| 0 <= i < t.len() && t[i].0 == name@) ==> (r matches Ok(f)
                    && f.slot < t.len() && t[f.slot as int].0 == name@ && f.payload@ == payload@)
                &&& !(exists|i: int| 0 <= i < t.len() && t[i].0 == name@) ==> r == Err::<
                    ApplicationFrame,
                    SendError,
                >(SendError::ExtensionNotNegotiated)
            }),
    {
        match &self.extensions {
            Some(t) => {
                if !matches!(self.state, ConnectionState::Established) {
                    return Err(SendError::PeerNotConnected);
                }
                match t.slot_of(name) {
                    Some(slot) => Ok(ApplicationFrame { slot, payload }),
                    None => Err(SendError::ExtensionNotNegotiated),
                }
            },
            None => Err(SendError::PeerNotConnected),
        }
    }
}

fn is_live_state(s: ConnectionState) -> (r: bool)
    ensures
        r == is_live(s),
{
    !matches!(s, ConnectionState::Closing | ConnectionState::Closed)
}

} // verus!
