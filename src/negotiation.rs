//! Agreement on the extensions that two peers share, and on their versions.
use vstd::prelude::*;

verus! {

broadcast use vstd::seq_lib::group_seq_properties;

/// An extension as registered locally: its name, the versions it speaks
/// and whether it may only run over an encrypted session.
pub struct ExtensionDescriptor {
    pub name: String,
    pub versions: Vec<u64>,
    pub needs_encryption: bool,
}

/// One extension as the peer advertises it in its negotiation request.
pub struct ExtensionOffer {
    pub name: String,
    pub versions: Vec<u64>,
}

/// An extension that both sides run, with the version they agreed on.
pub struct NegotiatedExtension {
    pub name: String,
    pub version: u64,
}

/// The per-connection table built by negotiation; an extension's slot id is
/// its index. It has no mutating method: once built it stays as it is.
pub struct NegotiatedTable {
    entries: Vec<NegotiatedExtension>,
}

/// `v` is offered by both sides and no version offered by both is higher.
pub open spec fn is_max_common(a: Seq<u64>, b: Seq<u64>, v: u64) -> bool {
    &&& a.contains(v)
    &&& b.contains(v)
    &&& forall|w: u64| a.contains(w) && b.contains(w) ==> w <= v
}

/// The highest version present in both sets, if they overlap.
pub open spec fn max_common(a: Seq<u64>, b: Seq<u64>) -> Option<u64> {
    if exists|v: u64| is_max_common(a, b, v) {
        Some(choose|v: u64| is_max_common(a, b, v))
    } else {
        None
    }
}

proof fn lemma_max_common_unique(a: Seq<u64>, b: Seq<u64>, v: u64)
    requires
        is_max_common(a, b, v),
    ensures
        max_common(a, b) == Some(v),
{
    let c = choose|x: u64| is_max_common(a, b, x);
    assert(is_max_common(a, b, c));
    assert(c <= v && v <= c);
}

/// Picks the highest version that both `ours` and `theirs` contain.
pub fn select_version(ours: &Vec<u64>, theirs: &Vec<u64>) -> (r: Option<u64>)
    ensures
        r == max_common(ours@, theirs@),
{
    let mut best: Option<u64> = None;
    let mut i: usize = 0;
    while i < ours.len()
        invariant
            0 <= i <= ours.len(),
            match best {
                Some(v) => is_max_common(ours@.subrange(0, i as int), theirs@, v),
                None => forall|w: u64|
                    ours@.subrange(0, i as int).contains(w) ==> !theirs@.contains(w),
            },
        decreases ours.len() - i,
    {
        let v = ours[i];
        let mut found = false;
        let mut j: usize = 0;
        while j < theirs.len()
            invariant
                0 <= j <= theirs.len(),
                found <==> theirs@.subrange(0, j as int).contains(v),
            decreases theirs.len() - j,
        {
            if theirs[j] == v {
                found = true;
            }
            proof {
                assert(theirs@.subrange(0, j + 1) =~= theirs@.subrange(0, j as int).push(
                    theirs@[j as int],
                ));
            }
            j = j + 1;
        }
        proof {
            assert(theirs@.subrange(0, j as int) =~= theirs@);
            assert(ours@.subrange(0, i + 1) =~= ours@.subrange(0, i as int).push(v));
        }
        if found {
            match best {
                Some(b) => {
                    if v > b {
                        best = Some(v);
                    }
                },
                None => {
                    best = Some(v);
                },
            }
        }
        i = i + 1;
    }
    proof {
        assert(ours@.subrange(0, i as int) =~= ours@);
        match best {
            Some(v) => lemma_max_common_unique(ours@, theirs@, v),
            None => {},
        }
    }
    best
}

/// Index of the last offer that carries `name`, or -1 when none does.
pub open spec fn last_offer(offers: Seq<ExtensionOffer>, name: Seq<char>) -> int
    decreases offers.len(),
{
    if offers.len() == 0 {
        -1
    } else if offers.last().name@ == name {
        offers.len() - 1
    } else {
        last_offer(offers.drop_last(), name)
    }
}

proof fn lemma_last_offer_range(offers: Seq<ExtensionOffer>, name: Seq<char>)
    ensures
        -1 <= last_offer(offers, name) < offers.len(),
        last_offer(offers, name) >= 0 ==> offers[last_offer(offers, name)].name@ == name,
    decreases offers.len(),
{
    if offers.len() > 0 {
        lemma_last_offer_range(offers.drop_last(), name);
    }
}

/// The version agreed for one local extension, or `None` when the peer does
/// not offer it, no version overlaps, or it needs a session that is absent.
pub open spec fn agreed_version(
    d: ExtensionDescriptor,
    offers: Seq<ExtensionOffer>,
    encrypted: bool,
) -> Option<u64> {
    let k = last_offer(offers, d.name@);
    if d.needs_encryption && !encrypted {
        None
    } else if k < 0 {
        None
    } else {
        max_common(d.versions@, offers[k].versions@)
    }
}

/// The table that negotiation builds: the local extensions in registration
/// order, each with its agreed version, those without one left out.
pub open spec fn negotiated(
    local: Seq<ExtensionDescriptor>,
    offers: Seq<ExtensionOffer>,
    encrypted: bool,
) -> Seq<(Seq<char>, u64)>
    decreases local.len(),
{
    if local.len() == 0 {
        seq![]
    } else {
        let prev = negotiated(local.drop_last(), offers, encrypted);
        match agreed_version(local.last(), offers, encrypted) {
            Some(v) => prev.push((local.last().name@, v)),
            None => prev,
        }
    }
}

impl View for NegotiatedTable {
    type V = Seq<(Seq<char>, u64)>;

    closed spec fn view(&self) -> Seq<(Seq<char>, u64)> {
        self.entries@.map_values(|e: NegotiatedExtension| (e.name@, e.version))
    }
}

impl NegotiatedTable {
    /// A table with no extension: valid when the peers share nothing.
    pub fn empty() -> (r: NegotiatedTable)
        ensures
            r@ == Seq::<(Seq<char>, u64)>::empty(),
    {
        let r = NegotiatedTable { entries: Vec::new() };
        assert(r@ =~= Seq::<(Seq<char>, u64)>::empty());
        r
    }

    pub fn len(&self) -> (r: usize)
        ensures
            r == self@.len(),
    {
        self.entries.len()
    }

    /// Name and agreed version of the extension in `slot`.
    pub fn get(&self, slot: usize) -> (r: Option<(&String, u64)>)
        ensures
            slot < self@.len() ==> (r matches Some((n, v)) && n@ == self@[slot as int].0 && v
                == self@[slot as int].1),
            slot >= self@.len() ==> r is None,
    {
        if slot < self.entries.len() {
            let e = &self.entries[slot];
            Some((&e.name, e.version))
        } else {
            None
        }
    }

    /// Slot of the extension called `name`, if the table holds it.
    pub fn slot_of(&self, name: &String) -> (r: Option<usize>)
        ensures
            match r {
                Some(s) => s < self@.len() && self@[s as int].0 == name@,
                None => forall|i: int| 0 <= i < self@.len() ==> self@[i].0 != name@,
            },
    {
        let mut i: usize = 0;
        while i < self.entries.len()
            invariant
                0 <= i <= self.entries@.len(),
                forall|k: int| 0 <= k < i ==> self@[k].0 != name@,
            decreases self.entries@.len() - i,
        {
            if self.entries[i].name == *name {
                return Some(i);
            }
            i = i + 1;
        }
        None
    }
}

/// Index of the offer that names `name`, as `last_offer` gives it.
fn find_offer(offers: &Vec<ExtensionOffer>, name: &String) -> (r: Option<usize>)
    ensures
        match r {
            Some(k) => k as int == last_offer(offers@, name@),
            None => last_offer(offers@, name@) == -1,
        },
{
    let mut found: Option<usize> = None;
    let mut i: usize = 0;
    while i < offers.len()
        invariant
            0 <= i <= offers@.len(),
            match found {
                Some(k) => k as int == last_offer(offers@.subrange(0, i as int), name@),
                None => last_offer(offers@.subrange(0, i as int), name@) == -1,
            },
        decreases offers@.len() - i,
    {
        proof {
            assert(offers@.subrange(0, i + 1).drop_last() =~= offers@.subrange(0, i as int));
        }
        if offers[i].name == *name {
            found = Some(i);
        }
        i = i + 1;
    }
    proof {
        assert(offers@.subrange(0, i as int) =~= offers@);
    }
    found
}

/// Builds the negotiated table for one connection from the locally
/// registered extensions and the peer's offer. `encrypted` says whether a
/// session was established; extensions that need one are left out otherwise.
pub fn negotiate(
    local: &Vec<ExtensionDescriptor>,
    offers: &Vec<ExtensionOffer>,
    encrypted: bool,
) -> (r: NegotiatedTable)
    ensures
        r@ == negotiated(local@, offers@, encrypted),
{
    let mut entries: Vec<NegotiatedExtension> = Vec::new();
    let mut i: usize = 0;
    while i < local.len()
        invariant
            0 <= i <= local@.len(),
            entries@.map_values(|e: NegotiatedExtension| (e.name@, e.version)) == negotiated(
                local@.subrange(0, i as int),
                offers@,
                encrypted,
            ),
        decreases local@.len() - i,
    {
        let d = &local[i];
        proof {
            assert(local@.subrange(0, i + 1).drop_last() =~= local@.subrange(0, i as int));
            assert(local@.subrange(0, i + 1).last() == local@[i as int]);
        }
        if !(d.needs_encryption && !encrypted) {
            match find_offer(offers, &d.name) {
                Some(k) => {
                    proof {
                        lemma_last_offer_range(offers@, d.name@);
                    }
                    match select_version(&d.versions, &offers[k].versions) {
                        Some(v) => {
                            let ghost before = entries@;
                            entries.push(NegotiatedExtension { name: d.name.clone(), version: v });
                            proof {
                                assert(entries@ =~= before.push(entries@.last()));
                                assert(entries@.map_values(
                                    |e: NegotiatedExtension| (e.name@, e.version),
                                ) =~= before.map_values(
                                    |e: NegotiatedExtension| (e.name@, e.version),
                                ).push((d.name@, v)));
                            }
                        },
                        None => {},
                    }
                },
                None => {},
            }
        }
        i = i + 1;
    }
    proof {
        assert(local@.subrange(0, i as int) =~= local@);
    }
    NegotiatedTable { entries }
}

/// Version choice depends only on which versions each side offers, not on
/// the order it lists them in, and not on which side asks.
pub proof fn law_version_choice_is_order_free(a1: Seq<u64>, b1: Seq<u64>, a2: Seq<u64>, b2: Seq<u64>)
    requires
        forall|v: u64| a1.contains(v) <==> a2.contains(v),
        forall|v: u64| b1.contains(v) <==> b2.contains(v),
    ensures
        max_common(a1, b1) == max_common(b2, a2),
        max_common(a1, b1) matches Some(v) ==> is_max_common(a1, b1, v),
{
    if exists|v: u64| is_max_common(a1, b1, v) {
        let v = choose|v: u64| is_max_common(a1, b1, v);
        assert(is_max_common(b2, a2, v));
        lemma_max_common_unique(b2, a2, v);
    } else {
        assert forall|v: u64| !is_max_common(b2, a2, v) by {
            if is_max_common(b2, a2, v) {
                assert(is_max_common(a1, b1, v));
            }
        }
    }
}

} // verus!
