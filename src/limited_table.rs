//! A registry of connections keyed by peer address, bounded by a maximum
//! entry count.
//!
//! Entries are kept in insertion order. When the table is full, the oldest
//! entry that is not yet established gives way to a new one; established
//! peers are never displaced: with every entry established the new attempt
//! is refused.
use vstd::prelude::*;

use crate::connection::Connection;
use crate::types::PeerAddress;

verus! {

broadcast use vstd::seq_lib::group_seq_properties;

/// Why an insertion was refused.
#[derive(Clone, Copy, Debug, PartialEq, Eq, Structural)]
pub enum TableError {
    /// The table is full and every entry is established.
    TableFull,
    /// An established connection already holds that address.
    DuplicateConnection,
}

pub struct LimitedTable {
    capacity: usize,
    entries: Vec<Connection>,
}

/// `j` is the first entry of `s` that is not established.
pub open spec fn is_first_pending(s: Seq<Connection>, j: int) -> bool {
    &&& 0 <= j < s.len()
    &&& !(s[j].state is Established)
    &&& forall|k: int| 0 <= k < j ==> s[k].state is Established
}

/// Some entry of `s` is not established.
pub open spec fn has_pending(s: Seq<Connection>) -> bool {
    exists|j: int| 0 <= j < s.len() && !(s[j].state is Established)
}

/// Position of the entry for `a` in `s`, or -1.
pub open spec fn position(s: Seq<Connection>, a: PeerAddress) -> int
    decreases s.len(),
{
    if s.len() == 0 {
        -1
    } else if s.last().address == a {
        s.len() - 1
    } else {
        position(s.drop_last(), a)
    }
}

/// No two entries share an address, and each is well formed.
pub open spec fn entries_wf(s: Seq<Connection>) -> bool {
    &&& forall|i: int, j: int|
        0 <= i < s.len() && 0 <= j < s.len() && i != j ==> s[i].address != s[j].address
    &&& forall|i: int| 0 <= i < s.len() ==> s[i].wf()
}

proof fn lemma_position(s: Seq<Connection>, a: PeerAddress)
    requires
        entries_wf(s),
    ensures
        -1 <= position(s, a) < s.len(),
        position(s, a) >= 0 ==> s[position(s, a)].address == a,
        position(s, a) < 0 ==> forall|i: int| 0 <= i < s.len() ==> s[i].address != a,
    decreases s.len(),
{
    if s.len() > 0 {
        let d = s.drop_last();
        assert forall|i: int| 0 <= i < d.len() implies d[i] == s[i] by {}
        lemma_position(d, a);
        if position(s, a) < 0 {
            assert forall|i: int| 0 <= i < s.len() implies s[i].address != a by {
                if i < d.len() {
                    assert(d[i] == s[i]);
                }
            }
        }
    }
}

/// What well-formed entries give: each is well formed, and `position`
/// finds the one entry for an address.
pub proof fn lemma_entries(s: Seq<Connection>, a: PeerAddress)
    requires
        entries_wf(s),
    ensures
        -1 <= position(s, a) < s.len(),
        position(s, a) >= 0 ==> s[position(s, a)].address == a,
        position(s, a) < 0 ==> forall|i: int| 0 <= i < s.len() ==> s[i].address != a,
        forall|i: int| 0 <= i < s.len() ==> #[trigger] s[i].wf(),
{
    lemma_position(s, a);
}

/// Putting a well-formed entry for the same address at `p` keeps the
/// entries well formed and the address at `p`.
pub proof fn lemma_update_same_address(s: Seq<Connection>, p: int, x: Connection)
    requires
        entries_wf(s),
        0 <= p < s.len(),
        x.address == s[p].address,
        x.wf(),
    ensures
        entries_wf(s.update(p, x)),
        position(s.update(p, x), x.address) == p,
{
    let t = s.update(p, x);
    assert forall|i: int, j: int|
        0 <= i < t.len() && 0 <= j < t.len() && i != j implies t[i].address != t[j].address by {
        assert(t[i].address == s[i].address && t[j].address == s[j].address);
    }
    assert forall|i: int| 0 <= i < t.len() implies t[i].wf() by {
        if i != p {
            assert(t[i] == s[i]);
        }
    }
    lemma_position_of_index(t, p);
}

proof fn lemma_position_of_index(s: Seq<Connection>, i: int)
    requires
        entries_wf(s),
        0 <= i < s.len(),
    ensures
        position(s, s[i].address) == i,
{
    lemma_position(s, s[i].address);
}

proof fn lemma_remove_push_wf(s: Seq<Connection>, i: int, c: Connection)
    requires
        entries_wf(s),
        0 <= i < s.len(),
        c.wf(),
        forall|k: int| 0 <= k < s.len() && k != i ==> s[k].address != c.address,
    ensures
        entries_wf(s.remove(i).push(c)),
{
    let t = s.remove(i).push(c);
    assert forall|x: int, y: int|
        0 <= x < t.len() && 0 <= y < t.len() && x != y implies t[x].address != t[y].address by {
        let sx = if x < i { x } else { x + 1 };
        let sy = if y < i { y } else { y + 1 };
        if x < t.len() - 1 && y < t.len() - 1 {
            assert(t[x] == s[sx] && t[y] == s[sy]);
        } else if x < t.len() - 1 {
            assert(t[x] == s[sx]);
        } else {
            assert(t[y] == s[sy]);
        }
    }
    assert forall|x: int| 0 <= x < t.len() implies t[x].wf() by {
        if x < t.len() - 1 {
            let sx = if x < i { x } else { x + 1 };
            assert(t[x] == s[sx]);
        }
    }
}

impl View for LimitedTable {
    type V = Seq<Connection>;

    closed spec fn view(&self) -> Seq<Connection> {
        self.entries@
    }
}

impl LimitedTable {
    pub closed spec fn capacity_spec(&self) -> nat {
        self.capacity as nat
    }

    /// Well-formed: within capacity, addresses unique, entries well formed.
    pub open spec fn wf(&self) -> bool {
        &&& self@.len() <= self.capacity_spec()
        &&& entries_wf(self@)
    }

    pub fn new(capacity: usize) -> (r: LimitedTable)
        ensures
            r.wf(),
            r.capacity_spec() == capacity,
            r@ == Seq::<Connection>::empty(),
    {
        LimitedTable { capacity, entries: Vec::new() }
    }

    pub fn capacity(&self) -> (r: usize)
        ensures
            r == self.capacity_spec(),
    {
        self.capacity
    }

    pub fn len(&self) -> (r: usize)
        ensures
            r == self@.len(),
    {
        self.entries.len()
    }

    /// The entry at index `i`, oldest first.
    pub fn at(&self, i: usize) -> (r: &Connection)
        requires
            i < self@.len(),
        ensures
            *r == self@[i as int],
    {
        &self.entries[i]
    }

    /// Index of the entry for `address`.
    pub fn find(&self, address: &PeerAddress) -> (r: Option<usize>)
        requires
            self.wf(),
        ensures
            match r {
                Some(i) => i as int == position(self@, *address) && i < self@.len(),
                None => position(self@, *address) == -1,
            },
            position(self@, *address) >= 0 ==> self@[position(self@, *address)].address
                == *address,
            position(self@, *address) < 0 ==> forall|i: int|
                0 <= i < self@.len() ==> self@[i].address != *address,
    {
        proof {
            lemma_position(self@, *address);
        }
        let mut i: usize = 0;
        while i < self.entries.len()
            invariant
                0 <= i <= self@.len(),
                self.wf(),
                forall|k: int| 0 <= k < i ==> self@[k].address != *address,
                -1 <= position(self@, *address) < self@.len(),
                position(self@, *address) >= 0 ==> self@[position(self@, *address)].address
                    == *address,
            decreases self@.len() - i,
        {
            if self.entries[i].address == *address {
                proof {
                    lemma_position_of_index(self@, i as int);
                }
                return Some(i);
            }
            i = i + 1;
        }
        None
    }

    /// The connection held for `address`.
    pub fn get(&self, address: &PeerAddress) -> (r: Option<&Connection>)
        requires
            self.wf(),
        ensures
            position(self@, *address) >= 0 ==> r == Some(&self@[position(self@, *address)]),
            position(self@, *address) < 0 ==> r is None,
    {
        match self.find(address) {
            Some(i) => Some(&self.entries[i]),
            None => None,
        }
    }

    /// Index of the oldest entry that is not established.
    fn first_pending(&self) -> (r: Option<usize>)
        ensures
            match r {
                Some(j) => is_first_pending(self@, j as int),
                None => !has_pending(self@),
            },
    {
        let mut i: usize = 0;
        while i < self.entries.len()
            invariant
                0 <= i <= self@.len(),
                forall|k: int| 0 <= k < i ==> self@[k].state is Established,
            decreases self@.len() - i,
        {
            if !self.entries[i].is_established() {
                return Some(i);
            }
            i = i + 1;
        }
        None
    }

    /// Admits `conn` under its address.
    ///
    /// - An address already present is taken over only from an entry that is
    ///   not established, which is handed back; otherwise the attempt fails
    ///   with `DuplicateConnection`.
    /// - A new address is added while there is room.
    /// - In a full table the oldest entry that is not established is evicted
    ///   and handed back; if every entry is established the attempt fails
    ///   with `TableFull` and the table is left as it was.
    ///
    /// The admitted connection becomes the newest entry.
    pub fn insert(&mut self, conn: Connection) -> (r: Result<Option<Connection>, TableError>)
        requires
            old(self).wf(),
            conn.wf(),
        ensures
            final(self).wf(),
            final(self).capacity_spec() == old(self).capacity_spec(),
            ({
                let s = old(self)@;
                let p = position(s, conn.address);
                &&& (p >= 0 && s[p].state is Established) ==> r == Err::<
                    Option<Connection>,
                    TableError,
                >(TableError::DuplicateConnection) && final(self)@ == s
                &&& (p >= 0 && !(s[p].state is Established)) ==> r == Ok::<
                    Option<Connection>,
                    TableError,
                >(Some(s[p])) && final(self)@ == s.remove(p).push(conn)
                &&& (p < 0 && s.len() < old(self).capacity_spec()) ==> r == Ok::<
                    Option<Connection>,
                    TableError,
                >(None) && final(self)@ == s.push(conn)
                &&& (p < 0 && s.len() >= old(self).capacity_spec() && has_pending(s)) ==> exists|
                    j: int,
                |
                    is_first_pending(s, j) && r == Ok::<Option<Connection>, TableError>(Some(s[j]))
                        && final(self)@ == s.remove(j).push(conn)
                &&& (p < 0 && s.len() >= old(self).capacity_spec() && !has_pending(s)) ==> r
                    == Err::<Option<Connection>, TableError>(TableError::TableFull) && final(
                    self)@ == s
            }),
    {
        let ghost s = self@;
        match self.find(&conn.address) {
            Some(p) => {
                if self.entries[p].is_established() {
                    Err(TableError::DuplicateConnection)
                } else {
                    proof {
                        lemma_remove_push_wf(s, p as int, conn);
                    }
                    let old_conn = self.entries.remove(p);
                    self.entries.push(conn);
                    Ok(Some(old_conn))
                }
            },
            None => {
                if self.entries.len() < self.capacity {
                    self.entries.push(conn);
                    proof {
                        assert forall|x: int, y: int|
                            0 <= x < self@.len() && 0 <= y < self@.len() && x != y implies self@[x].address
                            != self@[y].address by {
                            if x < s.len() && y < s.len() {
                                assert(self@[x] == s[x] && self@[y] == s[y]);
                            } else if x < s.len() {
                                assert(self@[x] == s[x]);
                            } else {
                                assert(self@[y] == s[y]);
                            }
                        }
                        assert forall|x: int| 0 <= x < self@.len() implies self@[x].wf() by {
                            if x < s.len() {
                                assert(self@[x] == s[x]);
                            }
                        }
                    }
                    Ok(None)
                } else {
                    match self.first_pending() {
                        Some(j) => {
                            proof {
                                lemma_remove_push_wf(s, j as int, conn);
                            }
                            let evicted = self.entries.remove(j);
                            self.entries.push(conn);
                            Ok(Some(evicted))
                        },
                        None => Err(TableError::TableFull),
                    }
                }
            },
        }
    }

    /// Removes and hands back the entry for `address`.
    pub fn remove(&mut self, address: &PeerAddress) -> (r: Option<Connection>)
        requires
            old(self).wf(),
        ensures
            final(self).wf(),
            final(self).capacity_spec() == old(self).capacity_spec(),
            ({
                let s = old(self)@;
                let p = position(s, *address);
                &&& p >= 0 ==> r == Some(s[p]) && final(self)@ == s.remove(p)
                &&& p < 0 ==> r is None && final(self)@ == s
            }),
    {
        let ghost s = self@;
        match self.find(address) {
            Some(p) => {
                let c = self.entries.remove(p);
                proof {
                    assert forall|x: int, y: int|
                        0 <= x < self@.len() && 0 <= y < self@.len() && x != y implies self@[x].address
                        != self@[y].address by {
                        let sx = if x < p { x } else { x + 1 };
                        let sy = if y < p { y } else { y + 1 };
                        assert(self@[x] == s[sx] && self@[y] == s[sy]);
                    }
                    assert forall|x: int| 0 <= x < self@.len() implies self@[x].wf() by {
                        let sx = if x < p { x } else { x + 1 };
                        assert(self@[x] == s[sx]);
                    }
                }
                Some(c)
            },
            None => None,
        }
    }

    /// Puts `conn` in place of the entry with the same address, keeping its
    /// position, and hands the previous entry back. An absent address leaves
    /// the table as it is and hands `conn` back.
    pub fn update(&mut self, conn: Connection) -> (r: Result<Connection, Connection>)
        requires
            old(self).wf(),
            conn.wf(),
        ensures
            final(self).wf(),
            final(self).capacity_spec() == old(self).capacity_spec(),
            ({
                let s = old(self)@;
                let p = position(s, conn.address);
                &&& p >= 0 ==> r == Ok::<Connection, Connection>(s[p]) && final(self)@ == s.update(
                    p,
                    conn,
                )
                &&& p < 0 ==> r == Err::<Connection, Connection>(conn) && final(self)@ == s
            }),
    {
        let ghost s = self@;
        match self.find(&conn.address) {
            Some(p) => {
                let mut c = conn;
                std::mem::swap(&mut c, &mut self.entries[p]);
                proof {
                    assert(self@ =~= s.update(p as int, conn));
                }
                Ok(c)
            },
            None => Err(conn),
        }
    }
}

} // verus!
