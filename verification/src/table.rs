//! A small keyed table: named entries kept in slot order.
//!
//! Every store of this crate is a table of named things: the key/value pool
//! names its instances by collection, an instance names its regions by
//! bucket, a region names its objects by identifier. `StoreTable` is the one
//! container behind all of them. Its mathematical model is the pair of
//! sequences `names()` and `items()`; its view is the finite map from a name
//! to the item stored under it.
use vstd::prelude::*;

verus! {

/// Named items in slot order. No name occurs twice, and the table never
/// holds more than `u32::MAX` entries, so that every count taken from it
/// fits the integer type in which counts are given.
pub struct StoreTable<V> {
    names: Vec<String>,
    items: Vec<V>,
}

impl<V> View for StoreTable<V> {
    type V = Map<Seq<char>, V>;

    open spec fn view(&self) -> Map<Seq<char>, V> {
        Map::new(
            |name: Seq<char>| self.names().contains(name),
            |name: Seq<char>| self.items()[self.names().index_of(name)],
        )
    }
}

impl<V> StoreTable<V> {
    /// The names of the entries, by slot.
    pub closed spec fn names(&self) -> Seq<Seq<char>> {
        Seq::new(self.names@.len(), |i: int| self.names@[i]@)
    }

    /// The items of the entries, by slot.
    pub closed spec fn items(&self) -> Seq<V> {
        self.items@
    }

    /// Well-formedness: one name per item, no name twice, bounded size.
    pub open spec fn wf(&self) -> bool {
        &&& self.names().len() == self.items().len()
        &&& self.names().no_duplicates()
        &&& self.names().len() <= u32::MAX
    }

    /// The slot of `name`, when the table holds it.
    pub open spec fn slot_of(&self, name: Seq<char>) -> int {
        self.names().index_of(name)
    }

    /// The view has as many keys as the table has slots.
    pub proof fn lemma_len(&self)
        requires
            self.wf(),
        ensures
            self@.dom().finite(),
            self@.dom().len() == self.names().len(),
    {
        self.names().unique_seq_to_set();
    }

    /// An empty table.
    pub fn new() -> (table: Self)
        ensures
            table.wf(),
            table.names() == Seq::<Seq<char>>::empty(),
            table.items() == Seq::<V>::empty(),
            table@ == Map::<Seq<char>, V>::empty(),
    {
        StoreTable { names: Vec::new(), items: Vec::new() }
    }

    /// The number of entries.
    pub fn len(&self) -> (n: usize)
        requires
            self.wf(),
        ensures
            n == self.names().len(),
            n <= u32::MAX,
    {
        self.names.len()
    }

    /// Whether the table has reached its bound and takes no further entry.
    pub fn is_full(&self) -> (full: bool)
        requires
            self.wf(),
        ensures
            full == (self.names().len() == u32::MAX),
    {
        self.names.len() >= 0xffff_ffff
    }

    /// Looks `name` up and returns its slot.
    pub fn find(&self, name: &String) -> (found: Option<usize>)
        requires
            self.wf(),
        ensures
            match found {
                Some(slot) => slot < self.names().len() && self.names()[slot as int] == name@
                    && slot == self.slot_of(name@),
                None => !self.names().contains(name@),
            },
            found is Some == self@.dom().contains(name@),
    {
        let mut slot: usize = 0;
        while slot < self.names.len()
            invariant
                self.wf(),
                slot <= self.names@.len(),
                forall|i: int| 0 <= i < slot ==> self.names()[i] != name@,
            decreases self.names@.len() - slot,
        {
            if self.names[slot] == *name {
                return Some(slot);
            }
            slot = slot + 1;
        }
        None
    }

    /// The name stored in `slot`.
    pub fn name_at(&self, slot: usize) -> (name: &String)
        requires
            self.wf(),
            slot < self.names().len(),
        ensures
            name@ == self.names()[slot as int],
    {
        &self.names[slot]
    }

    /// The item stored in `slot`.
    pub fn at(&self, slot: usize) -> (item: &V)
        requires
            self.wf(),
            slot < self.names().len(),
        ensures
            *item == self.items()[slot as int],
            *item == self@[self.names()[slot as int]],
    {
        &self.items[slot]
    }

    /// Hands out the item stored in `slot` for change in place. Whatever the
    /// caller leaves there is what the table holds afterwards; names and all
    /// other items stay.
    pub fn at_mut(&mut self, slot: usize) -> (item: &mut V)
        requires
            old(self).wf(),
            slot < old(self).names().len(),
        ensures
            *item == old(self).items()[slot as int],
            final(self).wf(),
            final(self).names() == old(self).names(),
            final(self).items() == old(self).items().update(slot as int, *final(item)),
            final(self)@ == old(self)@.insert(old(self).names()[slot as int], *final(item)),
    {
        &mut self.items[slot]
    }

    /// Adds a new entry in the slot behind the last one.
    pub fn insert(&mut self, name: String, item: V) -> (slot: usize)
        requires
            old(self).wf(),
            !old(self).names().contains(name@),
            old(self).names().len() < u32::MAX,
        ensures
            final(self).wf(),
            slot == old(self).names().len(),
            final(self).names() == old(self).names().push(name@),
            final(self).items() == old(self).items().push(item),
            final(self)@ == old(self)@.insert(name@, item),
    {
        let slot = self.names.len();
        let ghost names = self.names();
        let ghost items = self.items();
        self.names.push(name);
        self.items.push(item);
        proof {
            assert(self.names() =~= names.push(name@));
            Self::lemma_push(names, items, name@, item);
        }
        slot
    }

    /// Takes the entry of `slot` out; the entries behind it move up by one.
    pub fn remove(&mut self, slot: usize) -> (item: V)
        requires
            old(self).wf(),
            slot < old(self).names().len(),
        ensures
            final(self).wf(),
            item == old(self).items()[slot as int],
            final(self).names() == old(self).names().remove(slot as int),
            final(self).items() == old(self).items().remove(slot as int),
            final(self)@ == old(self)@.remove(old(self).names()[slot as int]),
    {
        let ghost names = self.names();
        let ghost items = self.items();
        let _ = self.names.remove(slot);
        let item = self.items.remove(slot);
        proof {
            assert(self.names() =~= names.remove(slot as int));
            Self::lemma_remove(names, items, slot as int);
        }
        item
    }

    /// The map read off two sequences of equal length.
    pub open spec fn map_of(names: Seq<Seq<char>>, items: Seq<V>) -> Map<Seq<char>, V> {
        Map::new(
            |name: Seq<char>| names.contains(name),
            |name: Seq<char>| items[names.index_of(name)],
        )
    }

    /// Appending an entry under a new name inserts it into the map.
    proof fn lemma_push(names: Seq<Seq<char>>, items: Seq<V>, name: Seq<char>, item: V)
        requires
            names.len() == items.len(),
            names.no_duplicates(),
            !names.contains(name),
        ensures
            names.push(name).no_duplicates(),
            Self::map_of(names.push(name), items.push(item)) == Self::map_of(names, items).insert(
                name,
                item,
            ),
    {
        let longer = names.push(name);
        let after = Self::map_of(longer, items.push(item));
        let expected = Self::map_of(names, items).insert(name, item);
        assert(longer[names.len() as int] == name);
        assert forall|key: Seq<char>| after.dom().contains(key) == expected.dom().contains(
            key,
        ) by {
            if names.contains(key) {
                let found = names.index_of(key);
                assert(longer[found] == key);
            }
        }
    }

    /// Taking the entry of one slot out removes its name from the map.
    proof fn lemma_remove(names: Seq<Seq<char>>, items: Seq<V>, slot: int)
        requires
            names.len() == items.len(),
            names.no_duplicates(),
            0 <= slot < names.len(),
        ensures
            names.remove(slot).no_duplicates(),
            Self::map_of(names.remove(slot), items.remove(slot)) == Self::map_of(
                names,
                items,
            ).remove(names[slot]),
    {
        let shorter = names.remove(slot);
        let after = Self::map_of(shorter, items.remove(slot));
        let expected = Self::map_of(names, items).remove(names[slot]);
        assert forall|key: Seq<char>| after.dom().contains(key) == expected.dom().contains(
            key,
        ) by {
            if names.contains(key) && key != names[slot] {
                let found = names.index_of(key);
                let behind = if found < slot { found } else { found - 1 };
                assert(shorter[behind] == key);
            }
        }
    }
}

} // verus!
