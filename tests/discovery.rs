use codechain_network::codec::Message;
use codechain_network::discovery::{Config, Extension, REFRESH_TOKEN};
use codechain_network::routing::RoutingTable;
use codechain_network::types::{NodeId, PeerAddress};

fn addr(i: u32) -> PeerAddress {
    PeerAddress::new(0xC0A80000 + i, 3485)
}

fn request_of(bytes: &[u8]) -> u8 {
    match Message::decode(bytes) {
        Ok(Message::Request(n)) => n,
        _ => panic!("not a request"),
    }
}

fn response_of(bytes: &[u8]) -> Vec<PeerAddress> {
    match Message::decode(bytes) {
        Ok(Message::Response(v)) => v,
        _ => panic!("not a response"),
    }
}

#[test]
fn gossip_between_two_peers() {
    let a_node = NodeId(1);
    let b_node = NodeId(2);
    let mut a = Extension::new(Config { bucket_size: 5, t_refresh: 1000 });
    a.set_routing_table(RoutingTable::new());
    let timer = a.on_initialize();
    assert_eq!(timer.token, REFRESH_TOKEN);
    assert_eq!(timer.interval_ms, 1000);

    let mut b = Extension::new(Config { bucket_size: 5, t_refresh: 1000 });
    let mut table_b = RoutingTable::new();
    for i in 1..=3 {
        table_b.add_reachable(addr(i));
    }
    b.set_routing_table(table_b);
    b.on_initialize();

    let out = a.on_node_added(&b_node, 0);
    assert_eq!(out.len(), 1);
    assert_eq!(out[0].to, b_node);
    assert_eq!(request_of(&out[0].bytes), 5);

    let reply = b.on_message(&a_node, &out[0].bytes);
    assert_eq!(reply.len(), 1);
    assert_eq!(reply[0].to, a_node);
    let mut got = response_of(&reply[0].bytes);
    got.sort_by_key(|p| p.ip);
    assert_eq!(got, vec![addr(1), addr(2), addr(3)]);

    assert!(a.on_message(&b_node, &reply[0].bytes).is_empty());
    let t = a.routing_table().unwrap();
    for i in 1..=3 {
        assert!(t.is_candidate(&addr(i)));
        assert!(!t.is_reachable(&addr(i)));
    }
}

#[test]
fn response_is_capped_by_request_and_bucket() {
    let mut b = Extension::new(Config { bucket_size: 4, t_refresh: 10 });
    let mut table = RoutingTable::new();
    for i in 0..10 {
        table.add_reachable(addr(i));
    }
    b.set_routing_table(table);
    b.on_initialize();
    let r = b.on_message(&NodeId(9), &Message::Request(2).encode());
    assert_eq!(response_of(&r[0].bytes).len(), 2);
    let r = b.on_message(&NodeId(9), &Message::Request(200).encode());
    let got = response_of(&r[0].bytes);
    assert_eq!(got.len(), 4);
    for (i, x) in got.iter().enumerate() {
        assert!(!got[i + 1..].contains(x));
    }
}

#[test]
fn response_order_is_shuffled() {
    let mut b = Extension::new(Config { bucket_size: 60, t_refresh: 10 });
    let mut table = RoutingTable::new();
    for i in 0..60 {
        table.add_reachable(addr(i));
    }
    b.set_routing_table(table);
    b.on_initialize();
    let r = b.on_message(&NodeId(9), &Message::Request(60).encode());
    let got = response_of(&r[0].bytes);
    let in_order: Vec<PeerAddress> = (0..60).map(addr).collect();
    assert_eq!(got.len(), 60);
    assert_ne!(got, in_order);
}

#[test]
fn refresh_asks_every_tracked_node() {
    let mut a = Extension::new(Config { bucket_size: 7, t_refresh: 10 });
    a.on_initialize();
    a.on_node_added(&NodeId(1), 0);
    a.on_node_added(&NodeId(2), 0);
    a.on_node_added(&NodeId(3), 0);
    a.on_node_removed(&NodeId(2));
    let out = a.on_timeout(REFRESH_TOKEN);
    assert_eq!(out.len(), 2);
    let mut to: Vec<u64> = out.iter().map(|o| o.to.0).collect();
    to.sort();
    assert_eq!(to, vec![1, 3]);
    for o in &out {
        assert_eq!(request_of(&o.bytes), 7);
    }
}

#[test]
fn nothing_is_sent_before_initialization() {
    let mut a = Extension::new(Config { bucket_size: 7, t_refresh: 10 });
    assert!(a.on_node_added(&NodeId(1), 0).is_empty());
    assert!(a.on_timeout(REFRESH_TOKEN).is_empty());
    assert_eq!(a.nodes().len(), 1);
}

#[test]
fn request_without_routing_table_is_dropped() {
    let mut a = Extension::new(Config { bucket_size: 7, t_refresh: 10 });
    a.on_initialize();
    assert!(a.on_message(&NodeId(1), &Message::Request(3).encode()).is_empty());
    let resp = Message::Response(vec![addr(1)]).encode();
    assert!(a.on_message(&NodeId(1), &resp).is_empty());
    assert!(a.routing_table().is_none());
}

#[test]
fn malformed_message_is_dropped() {
    let mut a = Extension::new(Config { bucket_size: 7, t_refresh: 10 });
    a.set_routing_table(RoutingTable::new());
    a.on_initialize();
    assert!(a.on_message(&NodeId(1), &[1, 2]).is_empty());
    assert!(a.on_message(&NodeId(1), &[]).is_empty());
}

#[test]
fn extension_identity() {
    let a = Extension::new(Config { bucket_size: 7, t_refresh: 10 });
    assert_eq!(a.name(), "unstructured-discovery");
    assert!(!a.need_encryption());
    assert_eq!(a.versions(), vec![0]);
    let d = a.descriptor();
    assert_eq!(d.name, "unstructured-discovery");
    assert!(!d.needs_encryption);
}

#[test]
fn duplicate_node_is_tracked_once() {
    let mut a = Extension::new(Config { bucket_size: 7, t_refresh: 10 });
    a.on_node_added(&NodeId(1), 0);
    a.on_node_added(&NodeId(1), 0);
    assert_eq!(a.nodes().len(), 1);
}
