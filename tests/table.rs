use codechain_network::codec::{encode_frame, APPLICATION_FAMILY};
use codechain_network::connection::ApplicationFrame;
use codechain_network::manager::Inbound;
use codechain_network::connection::{CloseReason, Connection, ConnectionState, SendError};
use codechain_network::handshake::{HandshakeError, Session};
use codechain_network::limited_table::{LimitedTable, TableError};
use codechain_network::manager::Manager;
use codechain_network::negotiation::{negotiate, ExtensionDescriptor, ExtensionOffer};
use codechain_network::types::{NodeId, PeerAddress};

fn addr(i: u32) -> PeerAddress {
    PeerAddress::new(0x0A000000 + i, 3485)
}

fn session() -> Session {
    Session { secret: 7, initiator_nonce: 1, responder_nonce: 2 }
}

fn established(i: u32) -> Connection {
    let mut c = Connection::new(addr(i));
    assert!(c.begin_handshake());
    assert!(c.authenticated(NodeId(i as u64), session()));
    assert!(c.negotiated(negotiate(&Vec::new(), &Vec::new(), true)));
    c
}

fn discovery_descriptor() -> ExtensionDescriptor {
    ExtensionDescriptor { name: "unstructured-discovery".to_string(), versions: vec![0], needs_encryption: false }
}

fn establish(m: &mut Manager, i: u32) {
    assert!(matches!(m.connect(addr(i)), Ok(None)));
    assert!(m.stream_opened(&addr(i)));
    assert!(m.handshake_succeeded(&addr(i), NodeId(i as u64), session()));
    let offers = vec![ExtensionOffer { name: "unstructured-discovery".to_string(), versions: vec![0] }];
    let added = m.negotiation_received(&addr(i), &offers).unwrap();
    assert_eq!(added.len(), 1);
    assert_eq!(added[0].extension, "unstructured-discovery");
    assert_eq!(added[0].node, NodeId(i as u64));
    assert_eq!(added[0].version, 0);
}

#[test]
fn table_admits_up_to_capacity() {
    let mut t = LimitedTable::new(2);
    assert!(matches!(t.insert(established(1)), Ok(None)));
    assert!(matches!(t.insert(established(2)), Ok(None)));
    assert_eq!(t.len(), 2);
    assert!(matches!(t.insert(established(3)), Err(TableError::TableFull)));
    assert_eq!(t.len(), 2);
    assert!(t.get(&addr(3)).is_none());
}

#[test]
fn full_table_evicts_oldest_pending() {
    let mut t = LimitedTable::new(3);
    t.insert(established(1)).unwrap();
    t.insert(Connection::new(addr(2))).unwrap();
    t.insert(Connection::new(addr(3))).unwrap();
    match t.insert(Connection::new(addr(4))) {
        Ok(Some(evicted)) => assert_eq!(evicted.address, addr(2)),
        _ => panic!("expected an eviction"),
    }
    assert_eq!(t.len(), 3);
    assert!(t.get(&addr(1)).is_some());
    assert!(t.get(&addr(2)).is_none());
    assert!(t.get(&addr(4)).is_some());
}

#[test]
fn duplicate_of_established_is_refused() {
    let mut t = LimitedTable::new(4);
    t.insert(established(1)).unwrap();
    assert!(matches!(t.insert(Connection::new(addr(1))), Err(TableError::DuplicateConnection)));
    assert!(t.get(&addr(1)).unwrap().is_established());
}

#[test]
fn duplicate_of_pending_replaces_it() {
    let mut t = LimitedTable::new(4);
    t.insert(Connection::new(addr(1))).unwrap();
    match t.insert(established(1)) {
        Ok(Some(old)) => assert_eq!(old.state, ConnectionState::Connecting),
        _ => panic!("expected the pending entry back"),
    }
    assert_eq!(t.len(), 1);
    assert!(t.get(&addr(1)).unwrap().is_established());
}

#[test]
fn zero_capacity_refuses_everything() {
    let mut t = LimitedTable::new(0);
    assert!(matches!(t.insert(Connection::new(addr(1))), Err(TableError::TableFull)));
}

#[test]
fn ninth_connection_is_refused_when_eight_are_established() {
    let mut m = Manager::new(8);
    m.register_extension(discovery_descriptor());
    for i in 1..=8 {
        establish(&mut m, i);
    }
    assert_eq!(m.len(), 8);
    assert!(matches!(m.connect(addr(9)), Err(TableError::TableFull)));
    assert_eq!(m.len(), 8);
    for i in 1..=8 {
        let c = m.connection(&addr(i)).unwrap();
        assert_eq!(c.state, ConnectionState::Established);
        assert_eq!(c.node, Some(NodeId(i as u64)));
    }
    assert!(m.connection(&addr(9)).is_none());
}

#[test]
fn failed_signature_closes_connection() {
    let mut m = Manager::new(4);
    m.connect(addr(1)).unwrap();
    m.stream_opened(&addr(1));
    let c = m.handshake_failed(&addr(1), HandshakeError::HandshakeAuthFailed).unwrap();
    assert_eq!(c.state, ConnectionState::Closed);
    assert_eq!(c.close_reason, Some(CloseReason::Handshake(HandshakeError::HandshakeAuthFailed)));
    assert!(c.session.is_none());
    assert_eq!(m.len(), 0);
}

#[test]
fn frames_route_only_when_established() {
    let mut m = Manager::new(4);
    m.register_extension(discovery_descriptor());
    m.connect(addr(1)).unwrap();
    m.stream_opened(&addr(1));
    assert!(m.deliver(&addr(1), 0).is_none());
    assert!(matches!(
        m.send(&NodeId(1), &"unstructured-discovery".to_string(), vec![1]),
        Err(SendError::PeerNotConnected)
    ));
    m.handshake_succeeded(&addr(1), NodeId(1), session());
    let offers = vec![ExtensionOffer { name: "unstructured-discovery".to_string(), versions: vec![0] }];
    m.negotiation_received(&addr(1), &offers).unwrap();
    let d = m.deliver(&addr(1), 0).unwrap();
    assert_eq!(d.extension, "unstructured-discovery");
    assert_eq!(d.node, NodeId(1));
    assert!(m.deliver(&addr(1), 1).is_none());
    let (to, frame) = m.send(&NodeId(1), &"unstructured-discovery".to_string(), vec![9, 8]).unwrap();
    assert_eq!(to, addr(1));
    assert_eq!(frame.slot, 0);
    assert_eq!(frame.payload, vec![9, 8]);
    assert!(matches!(
        m.send(&NodeId(1), &"other".to_string(), vec![1]),
        Err(SendError::ExtensionNotNegotiated)
    ));
    assert!(matches!(m.send(&NodeId(2), &"unstructured-discovery".to_string(), vec![1]), Err(SendError::PeerNotConnected)));
}

#[test]
fn closing_is_idempotent_and_clears_session() {
    let mut c = established(1);
    assert!(c.close(CloseReason::IoError));
    assert!(c.session.is_none());
    assert!(!c.close(CloseReason::Timeout));
    assert_eq!(c.close_reason, Some(CloseReason::IoError));
    assert!(c.finish_close());
    assert_eq!(c.state, ConnectionState::Closed);
    assert!(c.route_inbound(0).is_none());
}

#[test]
fn manager_close_removes_entry() {
    let mut m = Manager::new(4);
    m.register_extension(discovery_descriptor());
    establish(&mut m, 1);
    let c = m.close(&addr(1), CloseReason::Removed).unwrap();
    assert_eq!(c.state, ConnectionState::Closed);
    assert_eq!(c.node, Some(NodeId(1)));
    assert_eq!(m.len(), 0);
    assert!(m.close(&addr(1), CloseReason::Removed).is_none());
}

#[test]
fn eviction_closes_the_evicted_connection() {
    let mut m = Manager::new(1);
    m.connect(addr(1)).unwrap();
    match m.connect(addr(2)) {
        Ok(Some(c)) => {
            assert_eq!(c.address, addr(1));
            assert_eq!(c.state, ConnectionState::Closed);
            assert_eq!(c.close_reason, Some(CloseReason::Evicted));
        }
        _ => panic!("expected an eviction"),
    }
}

#[test]
fn malformed_frame_closes_only_that_connection() {
    let mut m = Manager::new(4);
    m.register_extension(discovery_descriptor());
    establish(&mut m, 1);
    establish(&mut m, 2);
    let good = encode_frame(&ApplicationFrame { slot: 0, payload: vec![5, 6] });
    match m.receive(&addr(1), &good) {
        Inbound::Deliver(d, payload) => {
            assert_eq!(d.extension, "unstructured-discovery");
            assert_eq!(d.node, NodeId(1));
            assert_eq!(payload, vec![5, 6]);
        }
        _ => panic!("expected a delivery"),
    }
    let unknown_slot = encode_frame(&ApplicationFrame { slot: 3, payload: vec![5] });
    assert!(matches!(m.receive(&addr(1), &unknown_slot), Inbound::Dropped));
    assert_eq!(m.len(), 2);
    match m.receive(&addr(1), &[3, APPLICATION_FAMILY]) {
        Inbound::Closed(c) => {
            assert_eq!(c.address, addr(1));
            assert_eq!(c.close_reason, Some(CloseReason::ProtocolViolation));
        }
        _ => panic!("expected the connection to close"),
    }
    assert_eq!(m.len(), 1);
    assert!(m.connection(&addr(2)).unwrap().is_established());
}
