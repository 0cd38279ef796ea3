//! The routing table that discovery reads from and writes to: addresses
//! confirmed live ("reachable") and addresses learned by gossip
//! ("candidate"). Promotion from candidate to reachable is the routing
//! layer's own concern.
use vstd::prelude::*;

use crate::types::PeerAddress;

verus! {

broadcast use vstd::seq_lib::group_seq_properties;

pub struct RoutingTable {
    reachable: Vec<PeerAddress>,
    candidates: Vec<PeerAddress>,
}

impl RoutingTable {
    pub closed spec fn reachable_view(&self) -> Seq<PeerAddress> {
        self.reachable@
    }

    pub closed spec fn candidates_view(&self) -> Seq<PeerAddress> {
        self.candidates@
    }

    /// Well-formed: neither class lists an address twice.
    pub open spec fn wf(&self) -> bool {
        &&& self.reachable_view().no_duplicates()
        &&& self.candidates_view().no_duplicates()
    }

    pub fn new() -> (r: RoutingTable)
        ensures
            r.wf(),
            r.reachable_view() == Seq::<PeerAddress>::empty(),
            r.candidates_view() == Seq::<PeerAddress>::empty(),
    {
        RoutingTable { reachable: Vec::new(), candidates: Vec::new() }
    }

    /// Records `a` as confirmed live.
    pub fn add_reachable(&mut self, a: PeerAddress)
        requires
            old(self).wf(),
        ensures
            final(self).wf(),
            final(self).candidates_view() == old(self).candidates_view(),
            final(self).reachable_view().contains(a),
            forall|x: PeerAddress|
                #[trigger] final(self).reachable_view().contains(x) <==> old(
                    self,
                ).reachable_view().contains(x) || x == a,
    {
        if !contains_address(&self.reachable, &a) {
            self.reachable.push(a);
        }
    }

    /// Records `a` as a candidate; the reachable class is left as it is.
    pub fn add_candidate(&mut self, a: PeerAddress)
        requires
            old(self).wf(),
        ensures
            final(self).wf(),
            final(self).reachable_view() == old(self).reachable_view(),
            final(self).candidates_view().contains(a),
            forall|x: PeerAddress|
                #[trigger] final(self).candidates_view().contains(x) <==> old(
                    self,
                ).candidates_view().contains(x) || x == a,
    {
        if !contains_address(&self.candidates, &a) {
            self.candidates.push(a);
        }
    }

    /// The reachable addresses, each once.
    pub fn reachable_addresses(&self) -> (r: Vec<PeerAddress>)
        requires
            self.wf(),
        ensures
            r@ == self.reachable_view(),
            r@.no_duplicates(),
    {
        self.reachable.clone()
    }

    pub fn is_reachable(&self, a: &PeerAddress) -> (r: bool)
        ensures
            r == self.reachable_view().contains(*a),
    {
        contains_address(&self.reachable, a)
    }

    pub fn is_candidate(&self, a: &PeerAddress) -> (r: bool)
        ensures
            r == self.candidates_view().contains(*a),
    {
        contains_address(&self.candidates, a)
    }
}

pub fn contains_address(v: &Vec<PeerAddress>, a: &PeerAddress) -> (r: bool)
    ensures
        r == v@.contains(*a),
{
    let mut i: usize = 0;
    while i < v.len()
        invariant
            0 <= i <= v@.len(),
            forall|k: int| 0 <= k < i ==> v@[k] != *a,
        decreases v@.len() - i,
    {
        if v[i] == *a {
            return true;
        }
        i = i + 1;
    }
    false
}

} // verus!
