//! Who is who: the address a connection came from, and tables keyed by it.

use vstd::prelude::*;

verus! {

/// The address of the far end of a connection.
#[derive(PartialEq, Eq, Structural, Clone, Copy, Debug, Hash)]
#[allow(inconsistent_fields)]
pub enum Address {
    /// An IPv4 address, as one number, and a port.
    V4 { ip: u32, port: u16 },
    /// An IPv6 address, as one number, a port, the flow label and the scope.
    V6 { ip: u128, port: u16, flowinfo: u32, scope_id: u32 },
}

/// Whether some entry is kept under `addr`.
pub open spec fn listed<T>(entries: Seq<(Address, T)>, addr: Address) -> bool {
    exists|i: int| 0 <= i < entries.len() && (#[trigger] entries[i]).0 == addr
}

/// The place of an entry that is kept under `addr`.
pub open spec fn index_of<T>(entries: Seq<(Address, T)>, addr: Address) -> int {
    choose|i: int| 0 <= i < entries.len() && (#[trigger] entries[i]).0 == addr
}

/// Whether no address has two entries.
pub open spec fn distinct<T>(entries: Seq<(Address, T)>) -> bool {
    forall|i: int, j: int|
        0 <= i < entries.len() && 0 <= j < entries.len() && i != j ==> (#[trigger] entries[i]).0
            != (#[trigger] entries[j]).0
}

/// The entries after `value` is kept under `addr`: in the place of the
/// entry that was there, or last where there was none.
pub open spec fn put<T>(entries: Seq<(Address, T)>, addr: Address, value: T) -> Seq<(Address, T)> {
    if listed(entries, addr) {
        entries.update(index_of(entries, addr), (addr, value))
    } else {
        entries.push((addr, value))
    }
}

/// The entries without the one kept under `addr`.
pub open spec fn without<T>(entries: Seq<(Address, T)>, addr: Address) -> Seq<(Address, T)> {
    if listed(entries, addr) {
        entries.remove(index_of(entries, addr))
    } else {
        entries
    }
}

/// A table with one entry for an address, kept in the order in which the
/// addresses first came. It is a list that is searched from the front, so
/// that it hands its entries out in one order every time.
#[derive(Debug)]
pub struct AddrMap<T> {
    entries: Vec<(Address, T)>,
}

impl<T> View for AddrMap<T> {
    type V = Seq<(Address, T)>;

    closed spec fn view(&self) -> Seq<(Address, T)> {
        self.entries@
    }
}

impl<T> AddrMap<T> {
    /// Whether the table is in order: no address has two entries.
    pub open spec fn wf(&self) -> bool {
        distinct(self@)
    }

    /// Create an empty table.
    pub fn new() -> (table: Self)
        ensures
            table@ == Seq::<(Address, T)>::empty(),
            table.wf(),
    {
        AddrMap { entries: Vec::new() }
    }

    /// The number of entries.
    pub fn len(&self) -> (n: usize)
        ensures
            n == self@.len(),
    {
        self.entries.len()
    }

    /// Whether the table has no entry.
    pub fn is_empty(&self) -> (empty: bool)
        ensures
            empty == (self@.len() == 0),
    {
        self.entries.len() == 0
    }

    /// The entry at place `i`.
    pub fn entry(&self, i: usize) -> (e: &(Address, T))
        requires
            i < self@.len(),
        ensures
            *e == self@[i as int],
    {
        &self.entries[i]
    }

    /// The place of the entry kept under `addr`, if there is one.
    pub fn find(&self, addr: &Address) -> (place: Option<usize>)
        requires
            self.wf(),
        ensures
            place is Some <==> listed(self@, *addr),
            place matches Some(i) ==> i == index_of(self@, *addr) && i < self@.len() && self@[i as int].0
                == *addr,
    {
        let mut i: usize = 0;
        while i < self.entries.len()
            invariant
                i <= self.entries@.len(),
                self.wf(),
                forall|j: int| 0 <= j < i ==> (#[trigger] self.entries@[j]).0 != *addr,
            decreases self.entries@.len() - i,
        {
            if self.entries[i].0 == *addr {
                proof {
                    let k = index_of(self@, *addr);
                    assert(self@[i as int].0 == *addr);
                    assert(0 <= k < self@.len() && self@[k].0 == *addr);
                }
                return Some(i);
            }
            i += 1;
        }
        None
    }

    /// What is kept under `addr`, if anything.
    pub fn get(&self, addr: &Address) -> (found: Option<&T>)
        requires
            self.wf(),
        ensures
            found is Some <==> listed(self@, *addr),
            found matches Some(value) ==> *value == self@[index_of(self@, *addr)].1,
    {
        match self.find(addr) {
            Some(i) => Some(&self.entries[i].1),
            None => None,
        }
    }

    /// Keep `value` under `addr`. Hands back what was kept there before,
    /// if anything; the new value takes its place in the order.
    pub fn insert(&mut self, addr: Address, value: T) -> (displaced: Option<T>)
        requires
            old(self).wf(),
        ensures
            final(self).wf(),
            displaced is Some <==> listed(old(self)@, addr),
            displaced matches Some(before) ==> before == old(self)@[index_of(old(self)@, addr)].1,
            final(self)@ == put(old(self)@, addr, value),
    {
        match self.find(&addr) {
            Some(i) => {
                // put the new entry last, then let it take the old one's place
                self.entries.push((addr, value));
                let old_entry = self.entries.swap_remove(i);
                proof {
                    let before = old(self)@;
                    let after = self@;
                    assert(after =~= before.update(i as int, (addr, value)));
                    assert forall|a: int, b: int|
                        0 <= a < after.len() && 0 <= b < after.len() && a != b implies (
                    #[trigger] after[a]).0 != (#[trigger] after[b]).0 by {
                        assert(after[a].0 == before[a].0);
                        assert(after[b].0 == before[b].0);
                    }
                }
                Some(old_entry.1)
            },
            None => {
                self.entries.push((addr, value));
                None
            },
        }
    }

    /// Take out what is kept under `addr`, if anything. The other entries
    /// keep their order.
    pub fn remove(&mut self, addr: &Address) -> (removed: Option<T>)
        requires
            old(self).wf(),
        ensures
            final(self).wf(),
            removed is Some <==> listed(old(self)@, *addr),
            removed matches Some(value) ==> value == old(self)@[index_of(old(self)@, *addr)].1,
            final(self)@ == without(old(self)@, *addr),
            !listed(final(self)@, *addr),
    {
        match self.find(addr) {
            Some(i) => {
                let entry = self.entries.remove(i);
                proof {
                    let before = old(self)@;
                    let after = self@;
                    assert forall|a: int, b: int|
                        0 <= a < after.len() && 0 <= b < after.len() && a != b implies (
                    #[trigger] after[a]).0 != (#[trigger] after[b]).0 by {
                        let aa = if a < i { a } else { a + 1 };
                        let bb = if b < i { b } else { b + 1 };
                        assert(after[a] == before[aa]);
                        assert(after[b] == before[bb]);
                    }
                    if listed(after, *addr) {
                        let a = choose|a: int| 0 <= a < after.len() && (#[trigger] after[a]).0 == *addr;
                        let aa = if a < i { a } else { a + 1 };
                        assert(after[a] == before[aa]);
                    }
                }
                Some(entry.1)
            },
            None => None,
        }
    }

    /// Take out every entry.
    pub fn clear(&mut self)
        ensures
            final(self)@ == Seq::<(Address, T)>::empty(),
            final(self).wf(),
    {
        self.entries.clear();
    }

    /// Give up the table for its entries, in order.
    pub fn into_entries(self) -> (entries: Vec<(Address, T)>)
        ensures
            entries@ == self@,
    {
        self.entries
    }
}

} // verus!
