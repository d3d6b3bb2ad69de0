//! Counting the bytes of the log: those of the live records, to which the
//! key directory points, and those that a compaction would reclaim.

use super::command::CommandMeta;
use vstd::prelude::*;

verus! {

/// The directory as contracts see it.
pub type Directory = Map<Seq<char>, CommandMeta>;

/// The bytes that the record of `key` takes, or 0 if the key is not live.
pub open spec fn size_of(dir: Directory, key: Seq<char>) -> nat {
    if dir.contains_key(key) {
        dir[key].size as nat
    } else {
        0
    }
}

/// The bytes that the live records take together.
pub open spec fn live_bytes(dir: Directory) -> nat
    decreases dir.dom().len(),
    when dir.dom().finite()
    via live_bytes_decreases
{
    if dir.dom().len() == 0 {
        0
    } else {
        let key = dir.dom().choose();
        dir[key].size as nat + live_bytes(dir.remove(key))
    }
}

#[via_fn]
proof fn live_bytes_decreases(dir: Directory) {
    if dir.dom().len() != 0 {
        let key = dir.dom().choose();
        assert(dir.dom().contains(key)) by {
            if dir.dom().is_empty() {
                assert(dir.dom() =~= Set::empty());
            }
        }
        assert(dir.remove(key).dom() == dir.dom().remove(key));
    }
}

/// The bytes of the first `n` of the listed keys' records.
pub open spec fn listed_bytes(dir: Directory, keys: Seq<Seq<char>>, n: int) -> nat
    decreases n,
{
    if n <= 0 {
        0
    } else {
        listed_bytes(dir, keys, n - 1) + size_of(dir, keys[n - 1])
    }
}

/// An empty directory has no live bytes.
pub proof fn lemma_live_bytes_empty()
    ensures
        live_bytes(Map::<Seq<char>, CommandMeta>::empty()) == 0,
{
    assert(Map::<Seq<char>, CommandMeta>::empty().dom() =~= Set::empty());
}

/// The live bytes are those of any one key's record and those of the rest.
pub proof fn lemma_live_bytes_remove(dir: Directory, key: Seq<char>)
    requires
        dir.dom().finite(),
        dir.contains_key(key),
    ensures
        live_bytes(dir) == dir[key].size + live_bytes(dir.remove(key)),
    decreases dir.dom().len(),
{
    assert(dir.dom().len() != 0) by {
        if dir.dom().len() == 0 {
            assert(dir.dom() =~= Set::empty()) by {
                dir.dom().lemma_len0_is_empty();
            }
        }
    }
    let chosen = dir.dom().choose();
    assert(dir.dom().contains(chosen));
    if chosen != key {
        let without_chosen = dir.remove(chosen);
        let without_key = dir.remove(key);
        assert(without_chosen.dom() == dir.dom().remove(chosen));
        assert(without_key.dom() == dir.dom().remove(key));
        lemma_live_bytes_remove(without_chosen, key);
        lemma_live_bytes_remove(without_key, chosen);
        assert(without_chosen.remove(key) == without_key.remove(chosen));
    }
}

/// Pointing a key at a record counts that record in place of the key's old
/// one.
pub proof fn lemma_live_bytes_insert(dir: Directory, key: Seq<char>, meta: CommandMeta)
    requires
        dir.dom().finite(),
    ensures
        live_bytes(dir.insert(key, meta)) + size_of(dir, key) == live_bytes(dir) + meta.size,
        size_of(dir, key) <= live_bytes(dir),
{
    let after = dir.insert(key, meta);
    lemma_live_bytes_remove(after, key);
    assert(after.remove(key) == dir.remove(key));
    if dir.contains_key(key) {
        lemma_live_bytes_remove(dir, key);
    } else {
        assert(dir.remove(key) == dir);
    }
}

/// Taking a key out stops counting its record.
pub proof fn lemma_live_bytes_without(dir: Directory, key: Seq<char>)
    requires
        dir.dom().finite(),
    ensures
        live_bytes(dir.remove(key)) + size_of(dir, key) == live_bytes(dir),
        size_of(dir, key) <= live_bytes(dir),
{
    if dir.contains_key(key) {
        lemma_live_bytes_remove(dir, key);
    } else {
        assert(dir.remove(key) == dir);
    }
}

/// The records of distinct live keys take no more than the live bytes, and
/// all of them when every live key is listed.
pub proof fn lemma_listed_bytes(dir: Directory, keys: Seq<Seq<char>>, n: int)
    requires
        dir.dom().finite(),
        keys.no_duplicates(),
        0 <= n <= keys.len(),
        forall|i: int| 0 <= i < n ==> dir.contains_key(#[trigger] keys[i]),
    ensures
        listed_bytes(dir, keys, n) <= live_bytes(dir),
        keys.take(n).to_set() == dir.dom() ==> listed_bytes(dir, keys, n) == live_bytes(dir),
    decreases n,
{
    if n == 0 {
        if keys.take(n).to_set() == dir.dom() {
            assert(keys.take(0).to_set() =~= Set::empty());
            assert(dir.dom().len() == 0);
        }
    } else {
        let key = keys[n - 1];
        let rest = dir.remove(key);
        lemma_live_bytes_remove(dir, key);
        assert forall|i: int| 0 <= i < n - 1 implies rest.contains_key(#[trigger] keys[i]) by {
            assert(keys[i] != keys[n - 1]);
        }
        lemma_listed_bytes(rest, keys, n - 1);
        lemma_listed_bytes_same(dir, rest, keys, n - 1);
        if keys.take(n).to_set() == dir.dom() {
            assert(keys.take(n - 1).to_set() =~= rest.dom()) by {
                assert forall|k: Seq<char>| keys.take(n - 1).to_set().contains(k) implies rest.dom().contains(
                    k,
                ) by {
                    let head = keys.take(n - 1);
                    assert(head.contains(k));
                    let i = choose|i: int| 0 <= i < head.len() && head[i] == k;
                    assert(keys[i] == k);
                    assert(rest.contains_key(keys[i]));
                }
                assert forall|k: Seq<char>| rest.dom().contains(k) implies keys.take(n - 1).to_set().contains(
                    k,
                ) by {
                    let listed = keys.take(n);
                    assert(listed.to_set().contains(k));
                    assert(listed.contains(k));
                    let i = choose|i: int| 0 <= i < listed.len() && listed[i] == k;
                    assert(i != n - 1);
                    assert(keys.take(n - 1)[i] == k);
                }
            }
        }
    }
}

/// Two directories that agree on the listed keys give the same count.
pub proof fn lemma_listed_bytes_same(a: Directory, b: Directory, keys: Seq<Seq<char>>, n: int)
    requires
        0 <= n <= keys.len(),
        forall|i: int| 0 <= i < n ==> size_of(a, #[trigger] keys[i]) == size_of(b, keys[i]),
    ensures
        listed_bytes(a, keys, n) == listed_bytes(b, keys, n),
    decreases n,
{
    if n > 0 {
        lemma_listed_bytes_same(a, b, keys, n - 1);
    }
}

} // verus!
