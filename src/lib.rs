//! Peer-to-peer networking core: wire codec, session handshake, extension
//! negotiation, connection lifecycle, bounded connection table, connection
//! manager and the unstructured discovery extension.
pub mod types;
pub mod codec;
pub mod connection;
pub mod discovery;
pub mod handshake;
pub mod limited_table;
pub mod manager;
pub mod negotiation;
pub mod routing;
