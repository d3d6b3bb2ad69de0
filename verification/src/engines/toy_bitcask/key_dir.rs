//! The key directory: for each live key, where its latest `Put` record lies.

use super::command::CommandMeta;
use dashmap::DashMap;
use vstd::prelude::*;

verus! {

/// `dashmap::DashMap`, a hash map in shards. What one holds is told by
/// `dash_map_entries`.
#[verifier::external_type_specification]
#[verifier::external_body]
#[verifier::reject_recursive_types(K)]
#[verifier::reject_recursive_types(V)]
#[verifier::reject_recursive_types(S)]
pub struct ExDashMap<K, V, S>(DashMap<K, V, S>);

/// The entries that a `DashMap` from keys to record pointers holds, each key
/// by its characters.
pub uninterp spec fn dash_map_entries(map: DashMap<String, CommandMeta>) -> Map<
    Seq<char>,
    CommandMeta,
>;

/// `DashMap::new`: a map without entries.
#[verifier::external_body]
fn dash_map_new() -> (map: DashMap<String, CommandMeta>)
    ensures
        dash_map_entries(map) =~= Map::empty(),
{
    DashMap::new()
}

/// `DashMap::insert`: the key is given the value, and the value that the key
/// had before, if any, is returned.
#[verifier::external_body]
fn dash_map_insert(map: &mut DashMap<String, CommandMeta>, key: String, meta: CommandMeta) -> (old_meta:
    Option<CommandMeta>)
    ensures
        dash_map_entries(*final(map)) == dash_map_entries(*old(map)).insert(key@, meta),
        old_meta == dash_map_entries(*old(map)).get(key@),
{
    map.insert(key, meta)
}

/// `DashMap::remove`: the entry of the key leaves the map, and the value that
/// the key had, if any, is returned.
#[verifier::external_body]
fn dash_map_remove(map: &mut DashMap<String, CommandMeta>, key: &str) -> (old_meta: Option<
    CommandMeta,
>)
    ensures
        dash_map_entries(*final(map)) == dash_map_entries(*old(map)).remove(key@),
        old_meta == dash_map_entries(*old(map)).get(key@),
{
    map.remove(key).map(|entry| entry.1)
}

/// `DashMap::get`: the value of the key, if the map has an entry for it.
#[verifier::external_body]
fn dash_map_get(map: &DashMap<String, CommandMeta>, key: &str) -> (meta: Option<CommandMeta>)
    ensures
        meta == dash_map_entries(*map).get(key@),
{
    map.get(key).map(|entry| *entry.value())
}

/// `DashMap::contains_key`: whether the map has an entry for the key.
#[verifier::external_body]
fn dash_map_contains_key(map: &DashMap<String, CommandMeta>, key: &str) -> (found: bool)
    ensures
        found == dash_map_entries(*map).contains_key(key@),
{
    map.contains_key(key)
}

/// `DashMap::iter`: every entry of the map is visited once, in an order that
/// is the map's own affair; the keys are collected as they come.
#[verifier::external_body]
fn dash_map_keys(map: &DashMap<String, CommandMeta>) -> (keys: Vec<String>)
    ensures
        key_views(keys@).no_duplicates(),
        key_views(keys@).to_set() == dash_map_entries(*map).dom(),
{
    map.iter().map(|entry| entry.key().clone()).collect()
}

/// The strings of a sequence, each by its characters.
pub open spec fn key_views(keys: Seq<String>) -> Seq<Seq<char>> {
    keys.map_values(|key: String| key@)
}

/// For each live key, the place of its latest `Put` record.
pub struct KeyDir {
    map: DashMap<String, CommandMeta>,
}

impl View for KeyDir {
    type V = Map<Seq<char>, CommandMeta>;

    closed spec fn view(&self) -> Map<Seq<char>, CommandMeta> {
        dash_map_entries(self.map)
    }
}

impl KeyDir {
    /// A directory without entries.
    pub fn new() -> (dir: KeyDir)
        ensures
            dir@ == Map::<Seq<char>, CommandMeta>::empty(),
    {
        KeyDir { map: dash_map_new() }
    }

    /// Points `key` at `meta`, and returns what it pointed at before.
    pub fn insert(&mut self, key: String, meta: CommandMeta) -> (old_meta: Option<CommandMeta>)
        ensures
            final(self)@ == old(self)@.insert(key@, meta),
            old_meta == old(self)@.get(key@),
    {
        dash_map_insert(&mut self.map, key, meta)
    }

    /// Takes `key` out, and returns what it pointed at.
    pub fn remove(&mut self, key: &str) -> (old_meta: Option<CommandMeta>)
        ensures
            final(self)@ == old(self)@.remove(key@),
            old_meta == old(self)@.get(key@),
    {
        dash_map_remove(&mut self.map, key)
    }

    /// What `key` points at, if it is in the directory.
    pub fn get(&self, key: &str) -> (meta: Option<CommandMeta>)
        ensures
            meta == self@.get(key@),
    {
        dash_map_get(&self.map, key)
    }

    /// Whether `key` is in the directory.
    pub fn contains_key(&self, key: &str) -> (found: bool)
        ensures
            found == self@.contains_key(key@),
    {
        dash_map_contains_key(&self.map, key)
    }

    /// The keys of the directory, each once, in no particular order.
    pub fn keys(&self) -> (keys: Vec<String>)
        ensures
            key_views(keys@).no_duplicates(),
            key_views(keys@).to_set() == self@.dom(),
    {
        dash_map_keys(&self.map)
    }
}

} // verus!
