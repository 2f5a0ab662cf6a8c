//! Tick arrays by the address of their account.

use vstd::prelude::*;
use crate::address::Address;
use crate::tick_array_data::TickArrayData;

verus! {

/// A tick array and the address of its account.
#[derive(Clone, Debug)]
pub struct TickArrayEntry {
    pub address: Address,
    pub array: TickArrayData,
}

/// Tick arrays by address, in the order in which they were put in.
#[derive(Clone, Debug)]
pub struct TickArrayMap {
    pub entries: Vec<TickArrayEntry>,
}

/// The first position at or after `from` at which `address` stands.
pub open spec fn position_from(entries: Seq<TickArrayEntry>, address: Seq<u8>, from: int) -> Option<
    int,
>
    decreases entries.len() - from,
{
    if from < 0 || from >= entries.len() {
        None
    } else if entries[from].address@ == address {
        Some(from)
    } else {
        position_from(entries, address, from + 1)
    }
}

/// What the search for an address finds: a position that holds the address,
/// with no earlier one from `from` on; or nothing where no position from
/// `from` on holds it.
pub proof fn lemma_position_from(entries: Seq<TickArrayEntry>, address: Seq<u8>, from: int)
    requires
        0 <= from,
    ensures
        match position_from(entries, address, from) {
            Some(i) => from <= i < entries.len() && entries[i].address@ == address && forall|
                j: int,
            | from <= j < i ==> entries[j].address@ != address,
            None => forall|j: int| from <= j < entries.len() ==> entries[j].address@ != address,
        },
    decreases entries.len() - from,
{
    if from < entries.len() && entries[from].address@ != address {
        lemma_position_from(entries, address, from + 1);
    }
}

/// The search for an address looks at addresses only.
pub proof fn lemma_position_from_same_addresses(
    a: Seq<TickArrayEntry>,
    b: Seq<TickArrayEntry>,
    address: Seq<u8>,
    from: int,
)
    requires
        0 <= from,
        a.len() == b.len(),
        forall|i: int| 0 <= i < a.len() ==> a[i].address@ == b[i].address@,
    ensures
        position_from(a, address, from) == position_from(b, address, from),
    decreases a.len() - from,
{
    if from < a.len() && a[from].address@ != address {
        lemma_position_from_same_addresses(a, b, address, from + 1);
    }
}

/// The search for an address after one more entry has been put at the end.
pub proof fn lemma_position_from_push(
    entries: Seq<TickArrayEntry>,
    entry: TickArrayEntry,
    address: Seq<u8>,
    from: int,
)
    requires
        0 <= from <= entries.len(),
    ensures
        position_from(entries.push(entry), address, from) == (match position_from(
            entries,
            address,
            from,
        ) {
            Some(i) => Some(i),
            None => if entry.address@ == address {
                Some(entries.len() as int)
            } else {
                None
            },
        }),
    decreases entries.len() - from,
{
    let longer = entries.push(entry);
    if from < entries.len() {
        assert(longer[from] == entries[from]);
        if entries[from].address@ != address {
            lemma_position_from_push(entries, entry, address, from + 1);
        }
    } else {
        assert(longer[from] == entry);
        if entry.address@ != address {
            assert(position_from(longer, address, from + 1).is_none());
        }
    }
}

/// Whether each tick array of the map stands on the tick grid: its start
/// index is one that a tick array can have, and the tick that it reports
/// for an initialized slot is the tick of the slot's place.
pub open spec fn arrays_on_grid(tick_arrays: TickArrayMap, tick_spacing: u16) -> bool {
    forall|key: Seq<u8>|
        match #[trigger] tick_arrays.spec_get(key) {
            Some(array) => array.is_on_grid(tick_spacing),
            None => true,
        }
}

impl TickArrayMap {
    /// No address stands at two positions.
    pub open spec fn wf(&self) -> bool {
        forall|i: int, j: int|
            0 <= i < self.entries@.len() && 0 <= j < self.entries@.len() && i != j
                ==> #[trigger] self.entries@[i].address@ != #[trigger] self.entries@[j].address@
    }

    /// The tick array at an address.
    pub open spec fn spec_get(&self, address: Seq<u8>) -> Option<TickArrayData> {
        match position_from(self.entries@, address, 0) {
            Some(i) => Some(self.entries@[i].array),
            None => None,
        }
    }

    /// The addresses, in order.
    pub open spec fn addresses(&self) -> Seq<Address> {
        Seq::new(self.entries@.len(), |i: int| self.entries@[i].address)
    }

    /// A map without tick arrays.
    pub fn new() -> (r: TickArrayMap)
        ensures
            r.wf(),
            r.entries@.len() == 0,
    {
        TickArrayMap { entries: Vec::new() }
    }

    /// How many tick arrays the map holds.
    pub fn len(&self) -> (r: usize)
        ensures
            r == self.entries@.len(),
    {
        self.entries.len()
    }

    /// The position at which `address` stands.
    pub fn position(&self, address: &Address) -> (r: Option<usize>)
        ensures
            match r {
                Some(i) => position_from(self.entries@, address@, 0) == Some(i as int) && i
                    < self.entries@.len(),
                None => position_from(self.entries@, address@, 0).is_none(),
            },
    {
        let mut i: usize = 0;
        while i < self.entries.len()
            invariant
                i <= self.entries@.len(),
                position_from(self.entries@, address@, 0) == position_from(
                    self.entries@,
                    address@,
                    i as int,
                ),
            decreases self.entries@.len() - i,
        {
            if self.entries[i].address.same(address) {
                return Some(i);
            }
            i += 1;
        }
        None
    }

    /// The tick array at an address.
    pub fn get(&self, address: &Address) -> (r: Option<&TickArrayData>)
        ensures
            match r {
                Some(array) => self.spec_get(address@) == Some(*array),
                None => self.spec_get(address@).is_none(),
            },
    {
        match self.position(address) {
            Some(i) => Some(&self.entries[i].array),
            None => None,
        }
    }

    /// Puts a tick array at an address, in place of the one that stood there
    /// if there was one.
    pub fn insert(&mut self, address: Address, array: TickArrayData)
        requires
            old(self).wf(),
        ensures
            final(self).wf(),
            final(self).spec_get(address@) == Some(array),
            forall|other: Seq<u8>|
                other != address@ ==> #[trigger] final(self).spec_get(other) == old(
                    self,
                ).spec_get(other),
            old(self).spec_get(address@).is_some() ==> final(self).entries@.len() == old(
                self,
            ).entries@.len(),
            old(self).spec_get(address@).is_none() ==> final(self).entries@ == old(
                self,
            ).entries@.push(TickArrayEntry { address, array }),
    {
        let entry = TickArrayEntry { address, array };
        let ghost before = self.entries@;
        proof {
            lemma_position_from(before, address@, 0);
        }
        match self.position(&address) {
            Some(i) => {
                self.entries[i] = entry;
                proof {
                    let after = self.entries@;
                    assert forall|other: Seq<u8>| true implies position_from(after, other, 0)
                        == position_from(before, other, 0) by {
                        lemma_position_from_same_addresses(after, before, other, 0);
                    }
                    assert forall|other: Seq<u8>| other != address@ implies #[trigger] self.spec_get(
                        other,
                    ) == old(self).spec_get(other) by {
                        lemma_position_from(before, other, 0);
                    }
                }
            },
            None => {
                self.entries.push(entry);
                proof {
                    assert forall|other: Seq<u8>| true implies position_from(
                        self.entries@,
                        other,
                        0,
                    ) == (match position_from(before, other, 0) {
                        Some(i) => Some(i),
                        None => if address@ == other {
                            Some(before.len() as int)
                        } else {
                            None
                        },
                    }) by {
                        lemma_position_from_push(before, entry, other, 0);
                    }
                    assert forall|other: Seq<u8>| other != address@ implies #[trigger] self.spec_get(
                        other,
                    ) == old(self).spec_get(other) by {
                        lemma_position_from(before, other, 0);
                    }
                }
            },
        }
    }

    /// Whether each tick array of the map stands on the tick grid.
    pub fn stands_on_grid(&self, tick_spacing: u16) -> (r: bool)
        requires
            self.wf(),
            tick_spacing > 0,
        ensures
            r == arrays_on_grid(*self, tick_spacing),
    {
        let mut i: usize = 0;
        while i < self.entries.len()
            invariant
                i <= self.entries@.len(),
                self.wf(),
                tick_spacing > 0,
                forall|j: int| 0 <= j < i ==> (#[trigger] self.entries@[j]).array.is_on_grid(tick_spacing),
            decreases self.entries@.len() - i,
        {
            if !self.entries[i].array.stands_on_grid(tick_spacing) {
                proof {
                    let key = self.entries@[i as int].address@;
                    lemma_position_from(self.entries@, key, 0);
                    assert(self.spec_get(key) == Some(self.entries@[i as int].array));
                }
                return false;
            }
            i += 1;
        }
        proof {
            assert forall|key: Seq<u8>|
                match #[trigger] self.spec_get(key) {
                    Some(array) => array.is_on_grid(tick_spacing),
                    None => true,
                } by {
                lemma_position_from(self.entries@, key, 0);
            }
        }
        true
    }

    /// The addresses, in order.
    pub fn keys(&self) -> (r: Vec<Address>)
        ensures
            r@ == self.addresses(),
    {
        let mut out: Vec<Address> = Vec::new();
        let mut i: usize = 0;
        while i < self.entries.len()
            invariant
                i <= self.entries@.len(),
                out@.len() == i,
                forall|k: int| 0 <= k < i ==> out@[k] == self.entries@[k].address,
            decreases self.entries@.len() - i,
        {
            out.push(self.entries[i].address);
            i += 1;
        }
        assert(out@ =~= self.addresses());
        out
    }
}

} // verus!
