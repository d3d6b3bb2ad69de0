//! A store that lives in memory only.

use vstd::hash_map::StringHashMap;
use vstd::prelude::*;

verus! {

/// A map from keys to values, kept in memory.
pub struct KvStore {
    inner_store: StringHashMap<String>,
}

impl View for KvStore {
    type V = Map<Seq<char>, Seq<char>>;

    closed spec fn view(&self) -> Map<Seq<char>, Seq<char>> {
        self.inner_store@.map_values(|value: String| value@)
    }
}

impl KvStore {
    /// A store without keys.
    pub fn new() -> (store: KvStore)
        ensures
            store@ == Map::<Seq<char>, Seq<char>>::empty(),
    {
        let store = KvStore { inner_store: StringHashMap::new() };
        assert(store@ =~= Map::<Seq<char>, Seq<char>>::empty());
        store
    }

    /// Gives `key` the `value`.
    pub fn set(&mut self, key: String, value: String)
        ensures
            final(self)@ == old(self)@.insert(key@, value@),
    {
        self.inner_store.insert(key, value);
        assert(self@ =~= old(self)@.insert(key@, value@));
    }

    /// The value of `key`, if it has one.
    pub fn get(&self, key: String) -> (value: Option<String>)
        ensures
            match value {
                Some(v) => self@.contains_key(key@) && v@ == self@[key@],
                None => !self@.contains_key(key@),
            },
    {
        match self.inner_store.get(key.as_str()) {
            Some(value) => Some(value.clone()),
            None => None,
        }
    }

    /// Removes `key`; a key that has no value is left as it is.
    pub fn remove(&mut self, key: String)
        ensures
            final(self)@ == old(self)@.remove(key@),
    {
        self.inner_store.remove(key.as_str());
        assert(self@ =~= old(self)@.remove(key@));
    }
}

} // verus!
