//! The entries that a tunnel knows.
use std::collections::HashMap;

use vstd::prelude::*;
use vstd::std_specs::iter::IteratorSpec;

verus! {

broadcast use vstd::std_specs::hash::group_hash_axioms;

/// What is known of each entry, by the entry's id.
pub struct EntryTable<V> {
    map: HashMap<u32, V>,
}

impl<V: View> View for EntryTable<V> {
    type V = Map<u32, V::V>;

    closed spec fn view(&self) -> Map<u32, V::V> {
        self.map@.map_values(|v: V| v@)
    }
}

/// The entries that stay known when `forget` was to be forgotten after a write: a write that fails
/// keeps it.
pub open spec fn forgotten<V>(known: Map<u32, V>, forget: Option<u32>, written: bool) -> Map<
    u32,
    V,
> {
    match forget {
        Some(id) if written => known.remove(id),
        _ => known,
    }
}

impl<V: View> EntryTable<V> {
    /// A table without entries.
    pub fn new() -> (table: EntryTable<V>)
        ensures
            table@ == Map::<u32, V::V>::empty(),
    {
        let table: EntryTable<V> = EntryTable { map: HashMap::new() };
        assert(table@ =~= Map::<u32, V::V>::empty());
        table
    }

    /// What is known of the entry `id`.
    pub fn get(&self, id: u32) -> (value: Option<&V>)
        ensures
            match value {
                Some(v) => self@.contains_key(id) && self@[id] == v@,
                None => !self@.contains_key(id),
            },
    {
        self.map.get(&id)
    }

    /// Whether the entry `id` is known.
    pub fn contains(&self, id: u32) -> (known: bool)
        ensures
            known == self@.contains_key(id),
    {
        self.map.contains_key(&id)
    }

    /// Makes `value` what is known of the entry `id`.
    pub fn insert(&mut self, id: u32, value: V)
        ensures
            final(self)@ == old(self)@.insert(id, value@),
    {
        let _ = self.map.insert(id, value);
        assert(self@ =~= old(self)@.insert(id, value@));
    }

    /// Forgets the entry `id` and returns what was known of it.
    pub fn remove(&mut self, id: u32) -> (value: Option<V>)
        ensures
            final(self)@ == old(self)@.remove(id),
            match value {
                Some(v) => old(self)@.contains_key(id) && old(self)@[id] == v@,
                None => !old(self)@.contains_key(id),
            },
    {
        let value: Option<V> = self.map.remove(&id);
        assert(self@ =~= old(self)@.remove(id));
        value
    }

    /// The ids of all entries, each once, in no particular order.
    pub fn ids(&self) -> (ids: Vec<u32>)
        ensures
            ids@.no_duplicates(),
            ids@.to_set() == self@.dom(),
    {
        let mut ids: Vec<u32> = Vec::new();
        let keys = self.map.keys();
        let ghost all: Seq<u32> = keys.remaining().unref();
        assert(all.to_set() == self.map@.dom());
        for id in it: keys
            invariant
                it.seq().unref() == all,
                ids@ == all.take(it.index() as int),
        {
            ids.push(*id);
        }
        assert(ids@ =~= all);
        assert(self@.dom() =~= self.map@.dom());
        ids
    }
}

} // verus!
