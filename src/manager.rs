//! The connection manager: owns the limited table and the registry of
//! extensions, drives each connection through its lifecycle, and routes
//! frames between connections and extensions.
//!
//! Network I/O and timers belong to the host, which reports what happened
//! (a stream opened, a handshake ended, a negotiation arrived) and carries
//! out what the manager hands back.
use vstd::prelude::*;

use crate::connection::{
    is_live, ApplicationFrame, CloseReason, Connection, ConnectionState, SendError,
};
use crate::codec::{decode_frame, parse_frame};
use crate::handshake::{HandshakeError, Session};
use crate::limited_table::{has_pending, is_first_pending, position, LimitedTable, TableError};
use crate::negotiation::{negotiate, negotiated, ExtensionDescriptor, ExtensionOffer};
use crate::types::{NodeId, PeerAddress};

verus! {

broadcast use vstd::seq_lib::group_seq_properties;

/// A "node added" notification for one extension.
pub struct NodeAdded {
    pub extension: String,
    pub node: NodeId,
    pub version: u64,
}

/// An inbound application payload handed to one extension.
pub struct Delivery {
    pub extension: String,
    pub node: NodeId,
    pub version: u64,
}

/// What became of an inbound frame.
pub enum Inbound {
    /// The payload goes to this extension.
    Deliver(Delivery, Vec<u8>),
    /// Not for any extension on this connection: dropped, nothing else changes.
    Dropped,
    /// The bytes did not decode: the connection was closed and removed.
    Closed(Connection),
}

pub struct Manager {
    table: LimitedTable,
    extensions: Vec<ExtensionDescriptor>,
}

/// `s` and `t` differ at most at `p`, where `t` holds a connection for the
/// same address.
pub open spec fn same_but_at(s: Seq<Connection>, t: Seq<Connection>, p: int) -> bool {
    &&& t.len() == s.len()
    &&& t[p].address == s[p].address
    &&& forall|i: int| 0 <= i < s.len() && i != p ==> t[i] == s[i]
}

/// `r` hands back `prior`, now closed: same address and node, no session,
/// and `reason` recorded unless it was already closing.
pub open spec fn evicted_from(r: Result<Option<Connection>, TableError>, prior: Connection, reason: CloseReason) -> bool {
    r matches Ok(Some(c)) && c.address == prior.address && c.node == prior.node && c.state is Closed
        && c.session is None && (is_live(prior.state) ==> c.close_reason == Some(reason))
}

/// The index of the live established connection to `node`, or -1.
pub open spec fn established_with(s: Seq<Connection>, node: NodeId) -> int
    decreases s.len(),
{
    if s.len() == 0 {
        -1
    } else if s.last().state is Established && s.last().node == Some(node) {
        s.len() - 1
    } else {
        established_with(s.drop_last(), node)
    }
}

proof fn lemma_established_with(s: Seq<Connection>, node: NodeId)
    ensures
        -1 <= established_with(s, node) < s.len(),
        established_with(s, node) >= 0 ==> s[established_with(s, node)].state is Established
            && s[established_with(s, node)].node == Some(node),
        established_with(s, node) < 0 ==> forall|i: int|
            0 <= i < s.len() ==> !(s[i].state is Established && s[i].node == Some(node)),
    decreases s.len(),
{
    if s.len() > 0 {
        let d = s.drop_last();
        assert forall|i: int| 0 <= i < d.len() implies d[i] == s[i] by {}
        lemma_established_with(d, node);
    }
}

impl Manager {
    /// The connections held, oldest first.
    pub closed spec fn connections(&self) -> Seq<Connection> {
        self.table@
    }

    pub closed spec fn max_connections(&self) -> nat {
        self.table.capacity_spec()
    }

    /// The registered extensions, in registration order.
    pub closed spec fn registry(&self) -> Seq<ExtensionDescriptor> {
        self.extensions@
    }

    pub closed spec fn wf(&self) -> bool {
        self.table.wf()
    }

    /// The manager never holds more connections than its maximum, holds
    /// at most one per address, and each is well formed.
    pub proof fn law_table_within_capacity(&self)
        requires
            self.wf(),
        ensures
            self.connections().len() <= self.max_connections(),
            forall|i: int|
                0 <= i < self.connections().len() ==> #[trigger] self.connections()[i].wf(),
            forall|i: int, j: int|
                0 <= i < self.connections().len() && 0 <= j < self.connections().len() && i != j
                    ==> self.connections()[i].address != self.connections()[j].address,
    {
    }

    pub fn new(max_connections: usize) -> (r: Manager)
        ensures
            r.wf(),
            r.max_connections() == max_connections,
            r.connections() == Seq::<Connection>::empty(),
            r.registry() == Seq::<ExtensionDescriptor>::empty(),
    {
        Manager { table: LimitedTable::new(max_connections), extensions: Vec::new() }
    }

    /// Registers an extension; done once per extension, at startup.
    pub fn register_extension(&mut self, d: ExtensionDescriptor)
        requires
            old(self).wf(),
        ensures
            final(self).wf(),
            final(self).connections() == old(self).connections(),
            final(self).max_connections() == old(self).max_connections(),
            final(self).registry() == old(self).registry().push(d),
    {
        self.extensions.push(d);
    }

    pub fn connection(&self, address: &PeerAddress) -> (r: Option<&Connection>)
        requires
            self.wf(),
        ensures
            position(self.connections(), *address) >= 0 ==> r == Some(
                &self.connections()[position(self.connections(), *address)],
            ),
            position(self.connections(), *address) < 0 ==> r is None,
    {
        self.table.get(address)
    }

    pub fn len(&self) -> (r: usize)
        ensures
            r == self.connections().len(),
    {
        self.table.len()
    }

    /// A stream was accepted from, or dialled to, `address`. The new
    /// connection enters the table under its policy; an entry it displaces
    /// is closed and handed back.
    pub fn connect(&mut self, address: PeerAddress) -> (r: Result<Option<Connection>, TableError>)
        requires
            old(self).wf(),
        ensures
            final(self).wf(),
            final(self).max_connections() == old(self).max_connections(),
            final(self).registry() == old(self).registry(),
            ({
                let s = old(self).connections();
                let p = position(s, address);
                let fresh = Connection::new_spec(address);
                &&& (p >= 0 && s[p].state is Established) ==> r == Err::<
                    Option<Connection>,
                    TableError,
                >(TableError::DuplicateConnection) && final(self).connections() == s
                &&& (p >= 0 && !(s[p].state is Established)) ==> final(self).connections()
                    == s.remove(p).push(fresh) && evicted_from(r, s[p], CloseReason::Evicted)
                &&& (p < 0 && s.len() < old(self).max_connections()) ==> r == Ok::<
                    Option<Connection>,
                    TableError,
                >(None) && final(self).connections() == s.push(fresh)
                &&& (p < 0 && s.len() >= old(self).max_connections() && has_pending(s)) ==> exists|
                    j: int,
                |
                    is_first_pending(s, j) && final(self).connections() == s.remove(j).push(fresh)
                        && evicted_from(r, s[j], CloseReason::Evicted)
                &&& (p < 0 && s.len() >= old(self).max_connections() && !has_pending(s)) ==> r
                    == Err::<Option<Connection>, TableError>(TableError::TableFull) && final(
                    self).connections() == s
            }),
    {
        let conn = Connection::new(address);
        let ghost s = self.table@;
        proof {
            crate::limited_table::lemma_entries(s, address);
        }
        let r = self.table.insert(conn);
        match r {
            Ok(Some(mut c)) => {
                c.shut(CloseReason::Evicted);
                Ok(Some(c))
            },
            Ok(None) => Ok(None),
            Err(e) => Err(e),
        }
    }

    /// Swaps a placeholder in for the entry at `address` and hands the entry out.
    fn take(&mut self, address: &PeerAddress) -> (r: Option<Connection>)
        requires
            old(self).wf(),
        ensures
            final(self).wf(),
            final(self).max_connections() == old(self).max_connections(),
            final(self).registry() == old(self).registry(),
            ({
                let s = old(self).connections();
                let p = position(s, *address);
                &&& p >= 0 ==> r == Some(s[p]) && final(self).connections() == s.update(
                    p,
                    Connection::new_spec(*address),
                ) && position(final(self).connections(), *address) == p && s[p].wf()
                    && s[p].address == *address
                &&& p < 0 ==> r is None && final(self).connections() == s
            }),
    {
        let placeholder = Connection::new(*address);
        proof {
            crate::limited_table::lemma_entries(self.table@, *address);
            let p = position(self.table@, *address);
            if p >= 0 {
                crate::limited_table::lemma_update_same_address(self.table@, p, placeholder);
            }
        }
        match self.table.update(placeholder) {
            Ok(c) => Some(c),
            Err(_) => None,
        }
    }

    /// Puts an entry taken out by `take` back in its place.
    fn put_back(&mut self, c: Connection)
        requires
            old(self).wf(),
            c.wf(),
            position(old(self).connections(), c.address) >= 0,
        ensures
            final(self).wf(),
            final(self).max_connections() == old(self).max_connections(),
            final(self).registry() == old(self).registry(),
            final(self).connections() == old(self).connections().update(
                position(old(self).connections(), c.address),
                c,
            ),
    {
        let _ = self.table.update(c);
    }

    /// The stream to `address` is open: its handshake begins.
    pub fn stream_opened(&mut self, address: &PeerAddress) -> (r: bool)
        requires
            old(self).wf(),
        ensures
            final(self).wf(),
            final(self).max_connections() == old(self).max_connections(),
            final(self).registry() == old(self).registry(),
            ({
                let s = old(self).connections();
                let p = position(s, *address);
                &&& r == (p >= 0 && s[p].state is Connecting)
                &&& r ==> same_but_at(s, final(self).connections(), p) && final(
                    self).connections()[p].state is Handshaking
                &&& !r ==> final(self).connections() == s
            }),
    {
        let ghost s = self.table@;
        match self.take(address) {
            Some(mut c) => {
                proof {
                    crate::limited_table::lemma_entries(s, *address);
                }
                let ok = c.begin_handshake();
                self.put_back(c);
                proof {
                    let p = position(s, *address);
                    assert(self.table@ =~= s.update(p, c));
                    if !ok {
                        assert(self.table@ =~= s);
                    }
                }
                ok
            },
            None => false,
        }
    }

    /// The handshake with `address` succeeded: the session is installed and
    /// negotiation begins.
    pub fn handshake_succeeded(&mut self, address: &PeerAddress, node: NodeId, session: Session) -> (r: bool)
        requires
            old(self).wf(),
        ensures
            final(self).wf(),
            final(self).max_connections() == old(self).max_connections(),
            final(self).registry() == old(self).registry(),
            ({
                let s = old(self).connections();
                let p = position(s, *address);
                &&& r == (p >= 0 && s[p].state is Handshaking)
                &&& r ==> same_but_at(s, final(self).connections(), p) && final(
                    self).connections()[p].state is Negotiating && final(self).connections()[p].node
                    == Some(node) && final(self).connections()[p].session == Some(session)
                &&& !r ==> final(self).connections() == s
            }),
    {
        let ghost s = self.table@;
        match self.take(address) {
            Some(mut c) => {
                proof {
                    crate::limited_table::lemma_entries(s, *address);
                }
                let ok = c.authenticated(node, session);
                self.put_back(c);
                proof {
                    let p = position(s, *address);
                    assert(self.table@ =~= s.update(p, c));
                    if !ok {
                        assert(self.table@ =~= s);
                    }
                }
                ok
            },
            None => false,
        }
    }

    /// The handshake with `address` failed (bad signature, timeout, or a
    /// message out of turn): the connection is torn down at once, leaves the
    /// table, and is handed back closed, with no session.
    pub fn handshake_failed(&mut self, address: &PeerAddress, error: HandshakeError) -> (r: Option<
        Connection,
    >)
        requires
            old(self).wf(),
        ensures
            final(self).wf(),
            final(self).max_connections() == old(self).max_connections(),
            final(self).registry() == old(self).registry(),
            ({
                let s = old(self).connections();
                let p = position(s, *address);
                &&& p >= 0 ==> final(self).connections() == s.remove(p) && (r matches Some(c) && c.address
                    == *address && c.state is Closed && c.session is None && (is_live(s[p].state)
                    ==> c.close_reason == Some(CloseReason::Handshake(error))))
                &&& p < 0 ==> r is None && final(self).connections() == s
            }),
    {
        self.close(address, CloseReason::Handshake(error))
    }

    /// Closes the connection to `address` for `reason` and takes it out of
    /// the table. The host then tells every extension that the node is gone.
    pub fn close(&mut self, address: &PeerAddress, reason: CloseReason) -> (r: Option<Connection>)
        requires
            old(self).wf(),
        ensures
            final(self).wf(),
            final(self).max_connections() == old(self).max_connections(),
            final(self).registry() == old(self).registry(),
            ({
                let s = old(self).connections();
                let p = position(s, *address);
                &&& p >= 0 ==> final(self).connections() == s.remove(p) && (r matches Some(c) && c.address
                    == *address && c.node == s[p].node && c.state is Closed && c.session is None
                    && (is_live(s[p].state) ==> c.close_reason == Some(reason)))
                &&& p < 0 ==> r is None && final(self).connections() == s
            }),
    {
        let ghost s = self.table@;
        match self.table.remove(address) {
            Some(mut c) => {
                proof {
                    crate::limited_table::lemma_entries(s, *address);
                }
                c.shut(reason);
                Some(c)
            },
            None => None,
        }
    }

    /// The peer's negotiation request for `address` arrived. The table is
    /// built from the registry and the offer, the connection becomes
    /// established, and one "node added" notification is returned per
    /// negotiated extension, in slot order.
    pub fn negotiation_received(&mut self, address: &PeerAddress, offers: &Vec<ExtensionOffer>) -> (r: Option<Vec<NodeAdded>>)
        requires
            old(self).wf(),
        ensures
            final(self).wf(),
            final(self).max_connections() == old(self).max_connections(),
            final(self).registry() == old(self).registry(),
            ({
                let s = old(self).connections();
                let p = position(s, *address);
                let ok = p >= 0 && s[p].state is Negotiating;
                &&& ok ==> {
                    let t = negotiated(old(self).registry(), offers@, s[p].session is Some);
                    let c = final(self).connections()[p];
                    &&& same_but_at(s, final(self).connections(), p)
                    &&& c.state is Established
                    &&& c.node == s[p].node
                    &&& c.session == s[p].session
                    &&& c.extensions.unwrap()@ == t
                    &&& r matches Some(v) && v@.len() == t.len() && forall|i: int|
                        0 <= i < t.len() ==> (#[trigger] v@[i]).extension@ == t[i].0 && v@[i].version
                            == t[i].1 && Some(v@[i].node) == s[p].node
                }
                &&& !ok ==> r is None && final(self).connections() == s
            }),
    {
        let ghost s = self.table@;
        match self.take(address) {
            Some(mut c) => {
                proof {
                    crate::limited_table::lemma_entries(s, *address);
                }
                if matches!(c.state, ConnectionState::Negotiating) {
                    let node = c.node.unwrap();
                    let table = negotiate(&self.extensions, offers, c.session.is_some());
                    let mut added: Vec<NodeAdded> = Vec::new();
                    let mut i: usize = 0;
                    while i < table.len()
                        invariant
                            0 <= i <= table@.len(),
                            added@.len() == i,
                            forall|k: int|
                                0 <= k < i ==> (#[trigger] added@[k]).extension@ == table@[k].0
                                    && added@[k].version == table@[k].1 && added@[k].node == node,
                        decreases table@.len() - i,
                    {
                        let (name, version) = table.get(i).unwrap();
                        added.push(NodeAdded { extension: name.clone(), node, version });
                        i = i + 1;
                    }
                    c.negotiated(table);
                    self.put_back(c);
                    proof {
                        assert(self.table@ =~= s.update(position(s, *address), c));
                    }
                    Some(added)
                } else {
                    self.put_back(c);
                    proof {
                        assert(self.table@ =~= s);
                    }
                    None
                }
            },
            None => None,
        }
    }

    /// Finds the established connection to `node`.
    fn find_node(&self, node: &NodeId) -> (r: Option<usize>)
        requires
            self.wf(),
        ensures
            match r {
                Some(i) => i as int == established_with(self.connections(), *node),
                None => established_with(self.connections(), *node) == -1,
            },
    {
        let mut found: Option<usize> = None;
        let mut i: usize = 0;
        while i < self.table.len()
            invariant
                0 <= i <= self.table@.len(),
                match found {
                    Some(k) => k as int == established_with(self.table@.take(i as int), *node),
                    None => established_with(self.table@.take(i as int), *node) == -1,
                },
            decreases self.table@.len() - i,
        {
            proof {
                assert(self.table@.take(i + 1).drop_last() =~= self.table@.take(i as int));
            }
            let c = self.table.at(i);
            if c.is_established() && c.node == Some(*node) {
                found = Some(i);
            }
            i = i + 1;
        }
        proof {
            assert(self.table@.take(i as int) =~= self.table@);
        }
        found
    }

    /// An extension sends `payload` to `node`: the frame is tagged with the
    /// extension's slot on the live connection to that node, and handed back
    /// with the address to write it to. Without such a connection the send
    /// fails with `PeerNotConnected`; nothing is queued.
    pub fn send(&self, node: &NodeId, extension: &String, payload: Vec<u8>) -> (r: Result<
        (PeerAddress, ApplicationFrame),
        SendError,
    >)
        requires
            self.wf(),
        ensures
            ({
                let s = self.connections();
                let k = established_with(s, *node);
                &&& k < 0 ==> r == Err::<(PeerAddress, ApplicationFrame), SendError>(
                    SendError::PeerNotConnected,
                )
                &&& k >= 0 ==> {
                    let t = s[k].extensions.unwrap()@;
                    &&& (exists|i: int| 0 <= i < t.len() && t[i].0 == extension@) ==> (r matches Ok(
                        (a, f),
                    ) && a == s[k].address && f.slot < t.len() && t[f.slot as int].0 == extension@
                        && f.payload@ == payload@)
                    &&& !(exists|i: int| 0 <= i < t.len() && t[i].0 == extension@) ==> r == Err::<
                        (PeerAddress, ApplicationFrame),
                        SendError,
                    >(SendError::ExtensionNotNegotiated)
                }
            }),
    {
        proof {
            lemma_established_with(self.table@, *node);
        }
        match self.find_node(node) {
            Some(i) => {
                let c = self.table.at(i);
                proof {
                    assert(c.wf());
                }
                match c.frame_outbound(extension, payload) {
                    Ok(f) => Ok((c.address, f)),
                    Err(e) => Err(e),
                }
            },
            None => Err(SendError::PeerNotConnected),
        }
    }

    /// An application frame arrived on `address` for `slot`: the extension
    /// it belongs to, with the peer and the version. Frames before the
    /// connection is established, or on an unknown slot, are dropped.
    pub fn deliver(&self, address: &PeerAddress, slot: usize) -> (r: Option<Delivery>)
        requires
            self.wf(),
        ensures
            ({
                let s = self.connections();
                let p = position(s, *address);
                let ok = p >= 0 && s[p].state is Established && slot < s[p].extensions.unwrap()@.len();
                &&& ok ==> (r matches Some(d) && d.extension@ == s[p].extensions.unwrap()@[slot as int].0
                    && d.version == s[p].extensions.unwrap()@[slot as int].1 && Some(d.node)
                    == s[p].node)
                &&& !ok ==> r is None
            }),
    {
        let ghost s = self.table@;
        match self.table.get(address) {
            Some(c) => {
                proof {
                    crate::limited_table::lemma_entries(s, *address);
                }
                match c.route_inbound(slot) {
                    Some((name, version)) => {
                        let node = c.node.unwrap();
                        Some(Delivery { extension: name.clone(), node, version })
                    },
                    None => None,
                }
            },
            None => None,
        }
    }

    /// Bytes of an application frame arrived on `address`. Bytes that do not
    /// decode are a protocol violation: that connection alone is closed and
    /// removed. A decoded frame is handed to its extension as `deliver` says,
    /// or dropped.
    pub fn receive(&mut self, address: &PeerAddress, bytes: &[u8]) -> (r: Inbound)
        requires
            old(self).wf(),
        ensures
            final(self).wf(),
            final(self).max_connections() == old(self).max_connections(),
            final(self).registry() == old(self).registry(),
            ({
                let s = old(self).connections();
                let p = position(s, *address);
                match parse_frame(bytes@) {
                    Err(_) => {
                        &&& p >= 0 ==> final(self).connections() == s.remove(p) && (r matches Inbound::Closed(
                            c,
                        ) && c.address == *address && c.node == s[p].node && c.state is Closed
                            && c.session is None && (is_live(s[p].state) ==> c.close_reason == Some(
                            CloseReason::ProtocolViolation,
                        )))
                        &&& p < 0 ==> r is Dropped && final(self).connections() == s
                    },
                    Ok((slot, payload)) => {
                        let ok = p >= 0 && s[p].state is Established && slot < s[
                            p
                        ].extensions.unwrap()@.len();
                        &&& final(self).connections() == s
                        &&& ok ==> (r matches Inbound::Deliver(d, pl) && pl@ == payload
                            && d.extension@ == s[p].extensions.unwrap()@[slot as int].0 && d.version
                            == s[p].extensions.unwrap()@[slot as int].1 && Some(d.node) == s[p].node)
                        &&& !ok ==> r is Dropped
                    },
                }
            }),
    {
        match decode_frame(bytes) {
            Err(_) => match self.close(address, CloseReason::ProtocolViolation) {
                Some(c) => Inbound::Closed(c),
                None => Inbound::Dropped,
            },
            Ok(f) => match self.deliver(address, f.slot) {
                Some(d) => Inbound::Deliver(d, f.payload),
                None => Inbound::Dropped,
            },
        }
    }
}

} // verus!
