//! The unstructured discovery extension: gossip of peer addresses by
//! request and response, feeding the routing table.
//!
//! Handlers return what is to be sent; the host hands it to the network.
use vstd::prelude::*;

use rand::seq::SliceRandom;

use crate::codec::{encoding, parse, Message, MessageModel};
use crate::negotiation::ExtensionDescriptor;
use crate::routing::RoutingTable;
use crate::types::{NodeId, PeerAddress};

verus! {

broadcast use {vstd::seq_lib::group_seq_properties, vstd::seq_lib::group_to_multiset_ensures};

/// Token of the periodic refresh timer, the only timer this extension sets.
pub const REFRESH_TOKEN: usize = 0;

/// Registered name of the extension.
pub const NAME: &'static str = "unstructured-discovery";

#[derive(Clone, Copy, Debug, PartialEq, Eq, Structural)]
pub struct Config {
    /// Most addresses exchanged in one request or response.
    pub bucket_size: u8,
    /// Interval of the periodic re-gossip, in milliseconds.
    pub t_refresh: u32,
}

/// A payload to send to one node.
pub struct Outgoing {
    pub to: NodeId,
    pub bytes: Vec<u8>,
}

/// A recurring timer to register with the connection manager.
#[derive(Clone, Copy, Debug, PartialEq, Eq, Structural)]
pub struct TimerRequest {
    pub token: usize,
    pub interval_ms: u32,
}

pub struct Extension {
    config: Config,
    routing_table: Option<RoutingTable>,
    initialized: bool,
    nodes: Vec<NodeId>,
}

/// The request that asks for a full bucket.
pub open spec fn request_bytes(config: Config) -> Seq<u8> {
    encoding(MessageModel::Request(config.bucket_size))
}

/// How many addresses a response to `Request(n)` carries, out of `available`.
pub open spec fn response_len(bucket_size: u8, n: u8, available: nat) -> nat {
    let k = if bucket_size < n {
        bucket_size as nat
    } else {
        n as nat
    };
    if k < available {
        k
    } else {
        available
    }
}

/// Relies on rand's `SliceRandom::shuffle` with the thread-local generator:
/// it permutes the slice in place by swaps, so the same addresses remain,
/// each as often as before.
#[verifier::external_body]
fn shuffle_addresses(v: &mut Vec<PeerAddress>)
    ensures
        final(v)@.to_multiset() == old(v)@.to_multiset(),
{
    v.shuffle(&mut rand::thread_rng());
}

/// The addresses of a response to `Request(n)`, from addresses already in
/// random order: the first `min(bucket_size, n)` of them.
pub fn take_for_response(shuffled: Vec<PeerAddress>, bucket_size: u8, n: u8) -> (r: Vec<
    PeerAddress,
>)
    ensures
        r@ == shuffled@.take(response_len(bucket_size, n, shuffled@.len()) as int),
{
    let k: usize = if bucket_size < n {
        bucket_size as usize
    } else {
        n as usize
    };
    let mut r: Vec<PeerAddress> = Vec::new();
    let mut i: usize = 0;
    while i < k && i < shuffled.len()
        invariant
            0 <= i <= shuffled@.len(),
            i <= k,
            r@ == shuffled@.take(i as int),
        decreases shuffled@.len() - i,
    {
        r.push(shuffled[i]);
        proof {
            assert(shuffled@.take(i + 1) =~= shuffled@.take(i as int).push(shuffled@[i as int]));
        }
        i = i + 1;
    }
    r
}

proof fn lemma_permutation_keeps_distinct(a: Seq<PeerAddress>, b: Seq<PeerAddress>)
    requires
        a.no_duplicates(),
        a.to_multiset() == b.to_multiset(),
    ensures
        b.no_duplicates(),
        forall|x: PeerAddress| b.contains(x) <==> a.contains(x),
        b.len() == a.len(),
{
    a.to_multiset_ensures();
    b.to_multiset_ensures();
    a.lemma_multiset_has_no_duplicates();
    b.lemma_multiset_has_no_duplicates_conv();
    assert forall|x: PeerAddress| b.contains(x) <==> a.contains(x) by {
        assert(b.contains(x) <==> b.to_multiset().count(x) > 0);
        assert(a.contains(x) <==> a.to_multiset().count(x) > 0);
    }
}

proof fn lemma_take_distinct(s: Seq<PeerAddress>, k: int)
    requires
        s.no_duplicates(),
        0 <= k <= s.len(),
    ensures
        s.take(k).no_duplicates(),
        forall|x: PeerAddress| s.take(k).contains(x) ==> s.contains(x),
{
    assert forall|x: PeerAddress| s.take(k).contains(x) implies s.contains(x) by {
        let i = choose|i: int| 0 <= i < k && s.take(k)[i] == x;
        assert(s[i] == x);
    }
}

impl Extension {
    pub closed spec fn config_spec(&self) -> Config {
        self.config
    }

    /// The nodes being tracked, in the order they were added.
    pub closed spec fn nodes_view(&self) -> Seq<NodeId> {
        self.nodes@
    }

    pub closed spec fn routing_table_spec(&self) -> Option<RoutingTable> {
        self.routing_table
    }

    /// Whether `on_initialize` has run, which gives the extension a way to send.
    pub closed spec fn initialized_spec(&self) -> bool {
        self.initialized
    }

    /// Well-formed: each node is tracked once, and the routing table, if
    /// set, is well formed.
    pub open spec fn wf(&self) -> bool {
        &&& self.nodes_view().no_duplicates()
        &&& self.routing_table_spec() matches Some(t) ==> t.wf()
    }

    pub fn new(config: Config) -> (r: Extension)
        ensures
            r.wf(),
            r.config_spec() == config,
            r.nodes_view() == Seq::<NodeId>::empty(),
            r.routing_table_spec() is None,
            !r.initialized_spec(),
    {
        Extension { config, routing_table: None, initialized: false, nodes: Vec::new() }
    }

    pub fn name(&self) -> (r: &'static str)
        ensures
            r@ == NAME@,
    {
        NAME
    }

    pub fn need_encryption(&self) -> (r: bool)
        ensures
            !r,
    {
        false
    }

    /// The versions spoken: only version 0.
    pub fn versions(&self) -> (r: Vec<u64>)
        ensures
            r@ == seq![0u64],
    {
        let mut v: Vec<u64> = Vec::new();
        v.push(0);
        assert(v@ =~= seq![0u64]);
        v
    }

    /// The descriptor to register with the connection manager.
    pub fn descriptor(&self) -> (r: ExtensionDescriptor)
        ensures
            r.name@ == NAME@,
            r.versions@ == seq![0u64],
            !r.needs_encryption,
    {
        ExtensionDescriptor {
            name: NAME.to_string(),
            versions: self.versions(),
            needs_encryption: false,
        }
    }

    /// Wires the extension to the manager: from now on it sends, and it asks
    /// for the recurring refresh timer.
    pub fn on_initialize(&mut self) -> (r: TimerRequest)
        ensures
            r == (TimerRequest { token: REFRESH_TOKEN, interval_ms: old(self).config_spec().t_refresh }),
            final(self).initialized_spec(),
            final(self).config_spec() == old(self).config_spec(),
            final(self).nodes_view() == old(self).nodes_view(),
            final(self).routing_table_spec() == old(self).routing_table_spec(),
    {
        self.initialized = true;
        TimerRequest { token: REFRESH_TOKEN, interval_ms: self.config.t_refresh }
    }

    pub fn set_routing_table(&mut self, routing_table: RoutingTable)
        requires
            routing_table.wf(),
        ensures
            final(self).routing_table_spec() == Some(routing_table),
            final(self).config_spec() == old(self).config_spec(),
            final(self).nodes_view() == old(self).nodes_view(),
            final(self).initialized_spec() == old(self).initialized_spec(),
    {
        self.routing_table = Some(routing_table);
    }

    pub fn routing_table(&self) -> (r: Option<&RoutingTable>)
        ensures
            r == match self.routing_table_spec() {
                Some(t) => Some(&t),
                None => None::<&RoutingTable>,
            },
    {
        match &self.routing_table {
            Some(t) => Some(t),
            None => None,
        }
    }

    pub fn nodes(&self) -> (r: &Vec<NodeId>)
        ensures
            r@ == self.nodes_view(),
    {
        &self.nodes
    }

    /// A peer negotiated this extension: it is tracked, and asked at once for
    /// a full bucket of addresses.
    pub fn on_node_added(&mut self, node: &NodeId, version: u64) -> (r: Vec<Outgoing>)
        requires
            old(self).wf(),
        ensures
            final(self).wf(),
            final(self).config_spec() == old(self).config_spec(),
            final(self).routing_table_spec() == old(self).routing_table_spec(),
            final(self).initialized_spec() == old(self).initialized_spec(),
            final(self).nodes_view().contains(*node),
            forall|x: NodeId|
                #[trigger] final(self).nodes_view().contains(x) <==> old(self).nodes_view().contains(x)
                    || x == *node,
            old(self).initialized_spec() ==> r@.len() == 1 && r@[0].to == *node && r@[0].bytes@
                == request_bytes(old(self).config_spec()),
            !old(self).initialized_spec() ==> r@.len() == 0,
    {
        if !contains_node(&self.nodes, node) {
            proof {
                lemma_push_distinct(self.nodes@, *node);
            }
            self.nodes.push(*node);
        }
        let mut out: Vec<Outgoing> = Vec::new();
        if self.initialized {
            let m = Message::Request(self.config.bucket_size);
            out.push(Outgoing { to: *node, bytes: m.encode() });
        }
        out
    }

    /// A peer went away: it is no longer tracked.
    pub fn on_node_removed(&mut self, node: &NodeId)
        requires
            old(self).wf(),
        ensures
            final(self).wf(),
            final(self).config_spec() == old(self).config_spec(),
            final(self).routing_table_spec() == old(self).routing_table_spec(),
            final(self).initialized_spec() == old(self).initialized_spec(),
            forall|x: NodeId|
                #[trigger] final(self).nodes_view().contains(x) <==> old(self).nodes_view().contains(x)
                    && x != *node,
    {
        let ghost s = self.nodes@;
        let mut kept: Vec<NodeId> = Vec::new();
        let mut i: usize = 0;
        while i < self.nodes.len()
            invariant
                0 <= i <= self.nodes@.len(),
                self.nodes@ == s,
                s.no_duplicates(),
                kept@.no_duplicates(),
                forall|x: NodeId|
                    #[trigger] kept@.contains(x) <==> s.take(i as int).contains(x) && x != *node,
            decreases self.nodes@.len() - i,
        {
            let x = self.nodes[i];
            proof {
                assert(s.take(i + 1) =~= s.take(i as int).push(x));
                if s.take(i as int).contains(x) {
                    let j = choose|j: int| 0 <= j < i && #[trigger] s.take(i as int)[j] == x;
                    assert(s[j] == s[i as int]);
                }
            }
            if x != *node {
                proof {
                    lemma_push_distinct(kept@, x);
                }
                kept.push(x);
            }
            i = i + 1;
        }
        proof {
            assert(s.take(i as int) =~= s);
        }
        self.nodes = kept;
    }

    /// A discovery message from `node`. Bytes that do not decode are dropped.
    ///
    /// - `Request(n)`: once initialized and wired to a routing table, the
    ///   reply is one response to `node` with `min(bucket_size, n)` of the
    ///   reachable addresses, fewer if there are fewer, in random order,
    ///   each at most once.
    /// - `Response(addresses)`: each address becomes a candidate in the
    ///   routing table, none reachable; without a table nothing changes.
    pub fn on_message(&mut self, node: &NodeId, message: &[u8]) -> (r: Vec<Outgoing>)
        requires
            old(self).wf(),
        ensures
            final(self).wf(),
            final(self).config_spec() == old(self).config_spec(),
            final(self).nodes_view() == old(self).nodes_view(),
            final(self).initialized_spec() == old(self).initialized_spec(),
            final(self).routing_table_spec() is Some == old(self).routing_table_spec() is Some,
            match parse(message@) {
                Err(_) => r@.len() == 0 && final(self).routing_table_spec() == old(
                    self,
                ).routing_table_spec(),
                Ok(MessageModel::Request(n)) => {
                    &&& final(self).routing_table_spec() == old(self).routing_table_spec()
                    &&& (old(self).initialized_spec() && old(self).routing_table_spec() is Some)
                        ==> {
                        let reachable = old(self).routing_table_spec().unwrap().reachable_view();
                        &&& r@.len() == 1
                        &&& r@[0].to == *node
                        &&& exists|s: Seq<PeerAddress>|
                            {
                                &&& #[trigger] encoding(MessageModel::Response(s)) == r@[0].bytes@
                                &&& s.len() == response_len(
                                    old(self).config_spec().bucket_size,
                                    n,
                                    reachable.len(),
                                )
                                &&& s.no_duplicates()
                                &&& forall|a: PeerAddress| s.contains(a) ==> reachable.contains(a)
                            }
                    }
                    &&& !(old(self).initialized_spec() && old(self).routing_table_spec() is Some)
                        ==> r@.len() == 0
                },
                Ok(MessageModel::Response(addresses)) => {
                    &&& r@.len() == 0
                    &&& old(self).routing_table_spec() is None ==> final(self).routing_table_spec()
                        is None
                    &&& old(self).routing_table_spec() matches Some(t0) ==> {
                        let t1 = final(self).routing_table_spec().unwrap();
                        &&& t1.reachable_view() == t0.reachable_view()
                        &&& forall|a: PeerAddress|
                            #[trigger] t1.candidates_view().contains(a) <==> t0.candidates_view().contains(
                                a,
                            ) || addresses.contains(a)
                    }
                },
            },
    {
        let mut out: Vec<Outgoing> = Vec::new();
        let decoded = Message::decode(message);
        match decoded {
            Err(_) => {},
            Ok(Message::Request(n)) => {
                if self.initialized {
                    match &self.routing_table {
                        Some(t) => {
                            let mut addresses = t.reachable_addresses();
                            let ghost before = addresses@;
                            shuffle_addresses(&mut addresses);
                            let ghost shuffled = addresses@;
                            proof {
                                lemma_permutation_keeps_distinct(before, shuffled);
                            }
                            let picked = take_for_response(addresses, self.config.bucket_size, n);
                            proof {
                                lemma_take_distinct(
                                    shuffled,
                                    response_len(self.config.bucket_size, n, shuffled.len()) as int,
                                );
                                assert(picked@.len() <= 255);
                            }
                            let m = Message::Response(picked);
                            out.push(Outgoing { to: *node, bytes: m.encode() });
                        },
                        None => {},
                    }
                }
            },
            Ok(Message::Response(addresses)) => {
                match &mut self.routing_table {
                    Some(t) => {
                        add_candidates(t, &addresses);
                    },
                    None => {},
                }
            },
        }
        out
    }

    /// The refresh timer fired: every tracked node is asked for a full bucket.
    pub fn on_timeout(&self, timer: usize) -> (r: Vec<Outgoing>)
        requires
            timer == REFRESH_TOKEN,
        ensures
            self.initialized_spec() ==> r@.len() == self.nodes_view().len() && forall|i: int|
                0 <= i < r@.len() ==> #[trigger] r@[i].to == self.nodes_view()[i] && r@[i].bytes@
                    == request_bytes(self.config_spec()),
            !self.initialized_spec() ==> r@.len() == 0,
    {
        let mut out: Vec<Outgoing> = Vec::new();
        if self.initialized {
            let m = Message::Request(self.config.bucket_size);
            let mut i: usize = 0;
            while i < self.nodes.len()
                invariant
                    0 <= i <= self.nodes@.len(),
                    self.initialized,
                    m@ == MessageModel::Request(self.config.bucket_size),
                    out@.len() == i,
                    forall|k: int|
                        0 <= k < i ==> #[trigger] out@[k].to == self.nodes@[k] && out@[k].bytes@
                            == request_bytes(self.config),
                decreases self.nodes@.len() - i,
            {
                out.push(Outgoing { to: self.nodes[i], bytes: m.encode() });
                i = i + 1;
            }
        }
        out
    }
}

/// Adds each of `addresses` to the table as a candidate.
fn add_candidates(t: &mut RoutingTable, addresses: &Vec<PeerAddress>)
    requires
        old(t).wf(),
    ensures
        final(t).wf(),
        final(t).reachable_view() == old(t).reachable_view(),
        forall|a: PeerAddress|
            #[trigger] final(t).candidates_view().contains(a) <==> old(t).candidates_view().contains(a)
                || addresses@.contains(a),
{
    let ghost c0 = t.candidates_view();
    let mut i: usize = 0;
    while i < addresses.len()
        invariant
            0 <= i <= addresses@.len(),
            t.wf(),
            t.reachable_view() == old(t).reachable_view(),
            forall|a: PeerAddress|
                #[trigger] t.candidates_view().contains(a) <==> c0.contains(a) || addresses@.take(
                    i as int,
                ).contains(a),
        decreases addresses@.len() - i,
    {
        proof {
            assert(addresses@.take(i + 1) =~= addresses@.take(i as int).push(addresses@[i as int]));
        }
        t.add_candidate(addresses[i]);
        i = i + 1;
    }
    proof {
        assert(addresses@.take(i as int) =~= addresses@);
    }
}

proof fn lemma_push_distinct<A>(s: Seq<A>, x: A)
    requires
        s.no_duplicates(),
        !s.contains(x),
    ensures
        s.push(x).no_duplicates(),
{
    let t = s.push(x);
    assert forall|i: int, j: int| 0 <= i < t.len() && 0 <= j < t.len() && i != j implies t[i]
        != t[j] by {
        if i < s.len() && j < s.len() {
            assert(t[i] == s[i] && t[j] == s[j]);
        } else if i < s.len() {
            assert(t[i] == s[i]);
        } else {
            assert(t[j] == s[j]);
        }
    }
}

fn contains_node(v: &Vec<NodeId>, n: &NodeId) -> (r: bool)
    ensures
        r == v@.contains(*n),
{
    let mut i: usize = 0;
    while i < v.len()
        invariant
            0 <= i <= v@.len(),
            forall|k: int| 0 <= k < i ==> v@[k] != *n,
        decreases v@.len() - i,
    {
        if v[i] == *n {
            return true;
        }
        i = i + 1;
    }
    false
}

} // verus!
