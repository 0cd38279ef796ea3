//! Per-connection handshake: exchange of hellos, key agreement and
//! authentication of the peer, `Idle -> AwaitingPeerHello -> KeyAgreed ->
//! Authenticated`.
//!
//! Signing and key agreement are done by the caller with its own primitives:
//! the handshake takes the agreed secret and the verdict on the peer's
//! signature as inputs and decides what follows.
use vstd::prelude::*;

use crate::types::NodeId;

verus! {

/// Which side opened the connection.
#[derive(Clone, Copy, Debug, PartialEq, Eq, Structural)]
pub enum Role {
    Initiator,
    Responder,
}

/// The hello each side sends: its identity and a fresh nonce.
#[derive(Clone, Copy, Debug, PartialEq, Eq, Structural)]
pub struct Hello {
    pub node: NodeId,
    pub nonce: u64,
}

/// Key material of an established session: the secret from key agreement and
/// both nonces, always in the order initiator first.
#[derive(Clone, Copy, Debug, PartialEq, Eq, Structural)]
pub struct Session {
    pub secret: u64,
    pub initiator_nonce: u64,
    pub responder_nonce: u64,
}

/// Why a handshake ended without a session.
#[derive(Clone, Copy, Debug, PartialEq, Eq, Structural)]
pub enum HandshakeError {
    /// The peer's signed envelope did not verify.
    HandshakeAuthFailed,
    /// The handshake did not complete in time.
    HandshakeTimeout,
    /// A message arrived that the current state does not expect.
    UnexpectedMessage,
}

#[derive(Clone, Copy, Debug, PartialEq, Eq, Structural)]
pub enum HandshakeState {
    Idle,
    AwaitingPeerHello,
    KeyAgreed,
    Authenticated,
    Failed(HandshakeError),
}

pub struct Handshake {
    pub role: Role,
    pub local: Hello,
    pub state: HandshakeState,
    pub peer: Option<NodeId>,
    pub pending: Option<Session>,
    pub session: Option<Session>,
}

/// The session that one side derives from its own nonce, the peer's nonce and
/// the agreed secret.
pub open spec fn derived_session(role: Role, own_nonce: u64, peer_nonce: u64, secret: u64) -> Session {
    match role {
        Role::Initiator => Session {
            secret,
            initiator_nonce: own_nonce,
            responder_nonce: peer_nonce,
        },
        Role::Responder => Session {
            secret,
            initiator_nonce: peer_nonce,
            responder_nonce: own_nonce,
        },
    }
}

/// When both sides agree on the secret, as key agreement guarantees for a
/// valid exchange, the initiator and the responder derive the same session.
pub proof fn law_both_sides_derive_same_session(
    initiator_nonce: u64,
    responder_nonce: u64,
    secret: u64,
)
    ensures
        derived_session(Role::Initiator, initiator_nonce, responder_nonce, secret)
            == derived_session(Role::Responder, responder_nonce, initiator_nonce, secret),
{
}

impl Handshake {
    /// Well-formed: a session is installed exactly when authenticated, and a
    /// derived key is kept only while waiting for the peer's signature.
    pub open spec fn wf(&self) -> bool {
        &&& (self.session is Some <==> self.state == HandshakeState::Authenticated)
        &&& (self.pending is Some <==> self.state == HandshakeState::KeyAgreed)
    }

    pub fn new(role: Role, local: NodeId, nonce: u64) -> (r: Handshake)
        ensures
            r.wf(),
            r.role == role,
            r.local == (Hello { node: local, nonce }),
            r.state == HandshakeState::Idle,
            r.peer is None,
    {
        Handshake {
            role,
            local: Hello { node: local, nonce },
            state: HandshakeState::Idle,
            peer: None,
            pending: None,
            session: None,
        }
    }

    /// The initiator sends its hello and waits for the peer's.
    pub fn start(&mut self) -> (r: Result<Hello, HandshakeError>)
        requires
            old(self).wf(),
        ensures
            final(self).wf(),
            final(self).role == old(self).role,
            final(self).local == old(self).local,
            final(self).peer == old(self).peer,
            old(self).role == Role::Initiator && old(self).state == HandshakeState::Idle ==> r
                == Ok::<Hello, HandshakeError>(old(self).local) && final(self).state
                == HandshakeState::AwaitingPeerHello,
            !(old(self).role == Role::Initiator && old(self).state == HandshakeState::Idle) ==> r
                == Err::<Hello, HandshakeError>(HandshakeError::UnexpectedMessage) && final(
                self).state == HandshakeState::Failed(HandshakeError::UnexpectedMessage),
    {
        if self.role == Role::Initiator && self.state == HandshakeState::Idle {
            self.state = HandshakeState::AwaitingPeerHello;
            Ok(self.local)
        } else {
            self.fail(HandshakeError::UnexpectedMessage);
            Err(HandshakeError::UnexpectedMessage)
        }
    }

    fn fail(&mut self, e: HandshakeError)
        ensures
            final(self).wf(),
            final(self).state == HandshakeState::Failed(e),
            final(self).role == old(self).role,
            final(self).local == old(self).local,
            final(self).peer == old(self).peer,
    {
        self.state = HandshakeState::Failed(e);
        self.pending = None;
        self.session = None;
    }

    /// The peer's hello arrives; `secret` is what key agreement gave for the
    /// two identities. The initiator answers nothing; the responder answers
    /// with its own hello. Either way the session key is derived.
    pub fn on_peer_hello(&mut self, hello: Hello, secret: u64) -> (r: Result<Option<Hello>, HandshakeError>)
        requires
            old(self).wf(),
        ensures
            final(self).wf(),
            final(self).role == old(self).role,
            final(self).local == old(self).local,
            ({
                let expected = (old(self).role == Role::Initiator && old(self).state
                    == HandshakeState::AwaitingPeerHello) || (old(self).role == Role::Responder
                    && old(self).state == HandshakeState::Idle);
                &&& expected ==> final(self).state == HandshakeState::KeyAgreed && final(self).peer
                    == Some(hello.node) && final(self).pending == Some(
                    derived_session(old(self).role, old(self).local.nonce, hello.nonce, secret),
                )
                &&& (expected && old(self).role == Role::Initiator) ==> r == Ok::<
                    Option<Hello>,
                    HandshakeError,
                >(None)
                &&& (expected && old(self).role == Role::Responder) ==> r == Ok::<
                    Option<Hello>,
                    HandshakeError,
                >(Some(old(self).local))
                &&& !expected ==> r == Err::<Option<Hello>, HandshakeError>(
                    HandshakeError::UnexpectedMessage,
                ) && final(self).state == HandshakeState::Failed(HandshakeError::UnexpectedMessage)
            }),
    {
        match (self.role, self.state) {
            (Role::Initiator, HandshakeState::AwaitingPeerHello) => {
                self.pending = Some(
                    Session {
                        secret,
                        initiator_nonce: self.local.nonce,
                        responder_nonce: hello.nonce,
                    },
                );
                self.peer = Some(hello.node);
                self.state = HandshakeState::KeyAgreed;
                Ok(None)
            },
            (Role::Responder, HandshakeState::Idle) => {
                self.pending = Some(
                    Session {
                        secret,
                        initiator_nonce: hello.nonce,
                        responder_nonce: self.local.nonce,
                    },
                );
                self.peer = Some(hello.node);
                self.state = HandshakeState::KeyAgreed;
                Ok(Some(self.local))
            },
            _ => {
                self.fail(HandshakeError::UnexpectedMessage);
                Err(HandshakeError::UnexpectedMessage)
            },
        }
    }

    /// The verdict on the peer's signed envelope. A valid signature installs
    /// the derived session; an invalid one ends the handshake with
    /// `HandshakeAuthFailed` and no session, with no retry.
    pub fn on_peer_signature(&mut self, valid: bool) -> (r: Result<Session, HandshakeError>)
        requires
            old(self).wf(),
        ensures
            final(self).wf(),
            final(self).role == old(self).role,
            final(self).local == old(self).local,
            final(self).peer == old(self).peer,
            old(self).state == HandshakeState::KeyAgreed && valid ==> final(self).state
                == HandshakeState::Authenticated && old(self).pending == Some(
                final(self).session.unwrap(),
            ) && r == Ok::<Session, HandshakeError>(final(self).session.unwrap()),
            old(self).state == HandshakeState::KeyAgreed && !valid ==> final(self).state
                == HandshakeState::Failed(HandshakeError::HandshakeAuthFailed) && final(
                self).session is None && r == Err::<Session, HandshakeError>(
                HandshakeError::HandshakeAuthFailed,
            ),
            old(self).state != HandshakeState::KeyAgreed ==> final(self).state
                == HandshakeState::Failed(HandshakeError::UnexpectedMessage) && r == Err::<
                Session,
                HandshakeError,
            >(HandshakeError::UnexpectedMessage),
    {
        match self.pending {
            Some(s) => {
                if valid {
                    self.session = Some(s);
                    self.pending = None;
                    self.state = HandshakeState::Authenticated;
                    Ok(s)
                } else {
                    self.fail(HandshakeError::HandshakeAuthFailed);
                    Err(HandshakeError::HandshakeAuthFailed)
                }
            },
            None => {
                self.fail(HandshakeError::UnexpectedMessage);
                Err(HandshakeError::UnexpectedMessage)
            },
        }
    }

    /// The handshake timer fired: unless already authenticated or failed, the
    /// handshake fails with `HandshakeTimeout`.
    pub fn on_timeout(&mut self) -> (r: bool)
        requires
            old(self).wf(),
        ensures
            final(self).wf(),
            final(self).role == old(self).role,
            final(self).local == old(self).local,
            final(self).peer == old(self).peer,
            r <==> !(old(self).state is Authenticated || old(self).state is Failed),
            r ==> final(self).state == HandshakeState::Failed(HandshakeError::HandshakeTimeout),
            !r ==> *final(self) == *old(self),
    {
        match self.state {
            HandshakeState::Authenticated | HandshakeState::Failed(_) => false,
            _ => {
                self.fail(HandshakeError::HandshakeTimeout);
                true
            },
        }
    }
}

} // verus!
