use codechain_network::handshake::{Handshake, HandshakeError, HandshakeState, Hello, Role};
use codechain_network::types::NodeId;

#[test]
fn both_sides_derive_the_same_session() {
    let mut a = Handshake::new(Role::Initiator, NodeId(1), 111);
    let mut b = Handshake::new(Role::Responder, NodeId(2), 222);
    let hello_a = a.start().unwrap();
    assert_eq!(hello_a, Hello { node: NodeId(1), nonce: 111 });
    let hello_b = b.on_peer_hello(hello_a, 999).unwrap().unwrap();
    assert_eq!(hello_b, Hello { node: NodeId(2), nonce: 222 });
    assert_eq!(a.on_peer_hello(hello_b, 999).unwrap(), None);
    assert_eq!(a.state, HandshakeState::KeyAgreed);
    let sa = a.on_peer_signature(true).unwrap();
    let sb = b.on_peer_signature(true).unwrap();
    assert_eq!(sa, sb);
    assert_eq!(sa.initiator_nonce, 111);
    assert_eq!(sa.responder_nonce, 222);
    assert_eq!(a.state, HandshakeState::Authenticated);
    assert_eq!(a.peer, Some(NodeId(2)));
    assert_eq!(b.peer, Some(NodeId(1)));
}

#[test]
fn bad_signature_fails_without_session() {
    let mut b = Handshake::new(Role::Responder, NodeId(2), 222);
    b.on_peer_hello(Hello { node: NodeId(1), nonce: 1 }, 5).unwrap();
    assert_eq!(b.on_peer_signature(false), Err(HandshakeError::HandshakeAuthFailed));
    assert_eq!(b.state, HandshakeState::Failed(HandshakeError::HandshakeAuthFailed));
    assert!(b.session.is_none());
}

#[test]
fn timeout_before_authentication_fails() {
    let mut a = Handshake::new(Role::Initiator, NodeId(1), 1);
    a.start().unwrap();
    assert!(a.on_timeout());
    assert_eq!(a.state, HandshakeState::Failed(HandshakeError::HandshakeTimeout));
    assert!(!a.on_timeout());
}

#[test]
fn message_out_of_turn_fails() {
    let mut a = Handshake::new(Role::Initiator, NodeId(1), 1);
    assert_eq!(
        a.on_peer_hello(Hello { node: NodeId(2), nonce: 2 }, 3),
        Err(HandshakeError::UnexpectedMessage)
    );
    let mut b = Handshake::new(Role::Responder, NodeId(2), 2);
    assert_eq!(b.start(), Err(HandshakeError::UnexpectedMessage));
    let mut c = Handshake::new(Role::Responder, NodeId(3), 3);
    assert_eq!(c.on_peer_signature(true), Err(HandshakeError::UnexpectedMessage));
}
