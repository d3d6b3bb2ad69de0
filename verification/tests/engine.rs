use std::collections::BTreeMap;

use kvs::engines::toy_bitcask::{
    list_log_file_in, log_file_of, Command, CommandMeta, Compaction, KvStore, StableLog,
    COMPACTION_THRESHOLD,
};
use kvs::KvsError;

/// A data directory in memory, and a store on top of it: what the owner of
/// the files does, with vectors for files.
struct Disk {
    files: BTreeMap<u64, Vec<u8>>,
}

struct Engine {
    store: KvStore,
    readers: StableLog,
    open: BTreeMap<u64, ()>,
    clock: i64,
}

impl Disk {
    fn new() -> Disk {
        Disk { files: BTreeMap::new() }
    }

    fn names(&self) -> Vec<String> {
        let mut names: Vec<String> = self.files.keys().map(|id| log_file_of(*id)).collect();
        names.push("engine".to_string());
        names
    }

    fn append(&mut self, id: u64, bytes: &[u8]) {
        self.files.entry(id).or_default().extend_from_slice(bytes);
    }

    fn read(&self, meta: &CommandMeta) -> Vec<u8> {
        let file = &self.files[&meta.file_id];
        file[meta.position as usize..(meta.position + meta.size) as usize].to_vec()
    }

    /// Copies the live records into the compaction file.
    fn copy(&mut self, compaction: &Compaction) {
        let mut target = Vec::new();
        for step in &compaction.moves {
            assert_eq!(step.to.file_id, compaction.compaction_id);
            assert_eq!(step.to.position as usize, target.len());
            assert_eq!(step.to.size, step.from.size);
            target.extend_from_slice(&self.read(&step.from));
        }
        self.files.insert(compaction.compaction_id, target);
    }

    /// Deletes the files that the compaction has replaced.
    fn sweep(&mut self, compaction: &Compaction) {
        let ids = list_log_file_in(&self.names());
        for id in compaction.stale_files(&ids) {
            self.files.remove(&id);
        }
    }
}

/// Carries the pending compaction of the store out on the disk.
fn compact(store: &mut KvStore, disk: &mut Disk) -> Compaction {
    let before: Vec<(String, CommandMeta)> =
        store.compaction().unwrap().moves.iter().map(|m| (m.key.clone(), m.from)).collect();
    disk.copy(store.compaction().unwrap());
    for (key, from) in &before {
        assert_eq!(store.locate(key), Some(*from));
    }
    let compaction = store.finish_compaction().unwrap();
    assert!(store.compaction().is_none());
    for step in &compaction.moves {
        assert_eq!(store.locate(&step.key), Some(step.to));
    }
    disk.sweep(&compaction);
    compaction
}

impl Engine {
    fn open(disk: &Disk) -> Engine {
        let ids = list_log_file_in(&disk.names());
        let mut store = KvStore::open(&ids);
        for id in ids {
            let bytes = &disk.files[&id];
            assert!(store.has_room(bytes.len() as u64));
            store.replay_file(id, bytes).unwrap();
        }
        Engine { store, readers: StableLog::new(), open: BTreeMap::new(), clock: 1_700_000_000 }
    }

    fn set(&mut self, disk: &mut Disk, key: &str, value: &str) {
        self.clock += 1;
        let text = Command::set_at(self.clock, key.to_string(), value.to_string()).encode().unwrap();
        let len = text.len() as u64;
        assert!(self.store.can_set(key, len));
        disk.append(self.store.active_file_id(), text.as_bytes());
        if self.store.set(key.to_string(), len) {
            compact(&mut self.store, disk);
        }
    }

    fn remove(&mut self, disk: &mut Disk, key: &str) -> Result<(), KvsError> {
        if !self.store.contains_key(key) {
            return match self.store.remove(key, 0) {
                Err(e) => Err(e),
                Ok(_) => panic!("a key that is not live was removed"),
            };
        }
        self.clock += 1;
        let text = Command::remove_at(self.clock, key.to_string()).encode().unwrap();
        let len = text.len() as u64;
        assert!(self.store.can_remove(key, len));
        disk.append(self.store.active_file_id(), text.as_bytes());
        if self.store.remove(key, len)? {
            compact(&mut self.store, disk);
        }
        Ok(())
    }

    fn get(&mut self, disk: &Disk, key: &str) -> Result<Option<String>, KvsError> {
        match self.store.plan_read(key, &mut self.readers) {
            None => Ok(None),
            Some(plan) => {
                for id in &plan.evicted {
                    assert!(self.open.remove(id).is_some());
                }
                if plan.open {
                    assert!(disk.files.contains_key(&plan.file_id));
                    self.open.insert(plan.file_id, ());
                    self.readers.opened(plan.file_id);
                }
                assert!(self.open.contains_key(&plan.file_id));
                assert!(plan.file_id >= self.store.compacted_id());
                let meta = CommandMeta { file_id: plan.file_id, position: plan.position, size: plan.size };
                assert_eq!(self.store.locate(key), Some(meta));
                StableLog::read_value(&disk.read(&meta))
            }
        }
    }
}

fn text(s: &str) -> Option<String> {
    Some(s.to_string())
}

#[test]
fn open_on_an_empty_directory_starts_at_file_one() {
    let store = KvStore::open(&Vec::new());
    assert_eq!(store.active_file_id(), 1);
    assert_eq!(store.active_pos(), 0);
    assert_eq!(store.uncompacted(), 0);
    assert_eq!(store.compacted_id(), 0);
    assert_eq!(store.live_bytes(), 0);
    assert_eq!(store.locate("k"), None);
    assert!(!store.contains_key("k"));
}

#[test]
fn open_appends_after_the_greatest_file() {
    assert_eq!(KvStore::open(&vec![1, 2, 3]).active_file_id(), 4);
    assert_eq!(KvStore::open(&vec![7]).active_file_id(), 8);
    assert_eq!(KvStore::open(&vec![3, 9, 4]).active_file_id(), 10);
    assert_eq!(KvStore::open(&vec![0]).active_file_id(), 1);
    assert_eq!(KvStore::open(&vec![u64::MAX - 1]).active_file_id(), u64::MAX);
}

#[test]
fn set_points_the_key_at_the_appended_record() {
    let mut store = KvStore::open(&vec![4]);
    assert!(!store.set("a".to_string(), 30));
    assert_eq!(store.locate("a"), Some(CommandMeta { file_id: 5, position: 0, size: 30 }));
    assert_eq!(store.active_pos(), 30);
    assert!(!store.set("b".to_string(), 12));
    assert_eq!(store.locate("b"), Some(CommandMeta { file_id: 5, position: 30, size: 12 }));
    assert_eq!(store.active_pos(), 42);
    assert_eq!(store.uncompacted(), 0);
    assert_eq!(store.live_bytes(), 42);
}

#[test]
fn set_again_counts_the_old_record_as_reclaimable() {
    let mut store = KvStore::open(&Vec::new());
    store.set("a".to_string(), 30);
    store.set("a".to_string(), 31);
    assert_eq!(store.locate("a"), Some(CommandMeta { file_id: 1, position: 30, size: 31 }));
    assert_eq!(store.uncompacted(), 30);
    assert_eq!(store.live_bytes(), 31);
    store.set("a".to_string(), 32);
    assert_eq!(store.uncompacted(), 61);
    assert_eq!(store.live_bytes(), 32);
    assert_eq!(store.active_pos(), 93);
}

#[test]
fn remove_takes_the_key_out_and_counts_both_records() {
    let mut store = KvStore::open(&Vec::new());
    store.set("a".to_string(), 30);
    store.set("b".to_string(), 40);
    assert!(matches!(store.remove("a", 20), Ok(false)));
    assert_eq!(store.locate("a"), None);
    assert!(!store.contains_key("a"));
    assert_eq!(store.locate("b"), Some(CommandMeta { file_id: 1, position: 30, size: 40 }));
    assert_eq!(store.uncompacted(), 50);
    assert_eq!(store.live_bytes(), 40);
    assert_eq!(store.active_pos(), 90);
}

#[test]
fn remove_of_a_missing_key_is_key_not_found_and_changes_nothing() {
    let mut store = KvStore::open(&Vec::new());
    store.set("a".to_string(), 30);
    assert!(matches!(store.remove("b", 20), Err(KvsError::KeyNotFound)));
    assert_eq!(store.active_pos(), 30);
    assert_eq!(store.uncompacted(), 0);
    assert_eq!(store.live_bytes(), 30);
    assert!(matches!(store.remove("a", 20), Ok(false)));
    assert!(matches!(store.remove("a", 20), Err(KvsError::KeyNotFound)));
    assert_eq!(store.active_pos(), 50);
    assert_eq!(store.uncompacted(), 50);
}

#[test]
fn replay_follows_the_records_of_a_file() {
    let mut store = KvStore::open(&vec![1, 2]);
    let put = |key: &str| Command::set_at(1, key.to_string(), "v".to_string());
    store.replay(1, 0, 10, &put("a"));
    store.replay(1, 10, 25, &put("b"));
    store.replay(1, 25, 40, &put("a"));
    store.replay(2, 0, 8, &Command::remove_at(2, "b".to_string()));
    store.replay(2, 8, 16, &Command::remove_at(2, "zz".to_string()));
    assert_eq!(store.locate("a"), Some(CommandMeta { file_id: 1, position: 25, size: 15 }));
    assert_eq!(store.locate("b"), None);
    assert_eq!(store.uncompacted(), 10 + 15 + 8 + 8);
    assert_eq!(store.live_bytes(), 15);
    assert_eq!(store.active_file_id(), 3);
    assert_eq!(store.active_pos(), 0);
}

#[test]
fn the_threshold_is_one_mebibyte() {
    assert_eq!(COMPACTION_THRESHOLD, 1024 * 1024);
}

#[test]
fn reaching_the_threshold_starts_a_compaction() {
    let mut store = KvStore::open(&vec![1]);
    assert!(!store.set("a".to_string(), COMPACTION_THRESHOLD - 1));
    assert!(!store.set("b".to_string(), 7));
    assert!(!store.set("a".to_string(), 5));
    assert_eq!(store.uncompacted(), COMPACTION_THRESHOLD - 1);
    assert!(store.compaction().is_none());
    assert!(store.set("b".to_string(), 9));

    // The compaction is planned, and nothing has moved yet.
    assert_eq!(store.uncompacted(), COMPACTION_THRESHOLD - 1 + 7);
    assert_eq!(store.active_file_id(), 2);
    assert_eq!(store.compacted_id(), 0);
    let a = CommandMeta { file_id: 2, position: COMPACTION_THRESHOLD - 1 + 7, size: 5 };
    let b = CommandMeta { file_id: 2, position: COMPACTION_THRESHOLD - 1 + 7 + 5, size: 9 };
    assert_eq!(store.locate("a"), Some(a));
    assert_eq!(store.locate("b"), Some(b));
    let plan = store.compaction().expect("a compaction is pending");
    assert_eq!(plan.compaction_id, 3);
    assert_eq!(plan.active_id, 4);
    assert_eq!(plan.moves.len(), 2);
    let mut offset = 0;
    for step in &plan.moves {
        assert_eq!(step.to, CommandMeta { file_id: 3, position: offset, size: step.from.size });
        offset += step.from.size;
        match step.key.as_str() {
            "a" => assert_eq!(step.from, a),
            "b" => assert_eq!(step.from, b),
            other => panic!("unexpected key {}", other),
        }
    }
    assert_eq!(offset, 14);
    assert!(!store.can_set("c", 1));
    assert!(!store.can_remove("a", 1));

    // Once it is finished, the directory points at the copies.
    let compaction = store.finish_compaction().expect("a compaction was pending");
    for step in &compaction.moves {
        assert_eq!(store.locate(&step.key), Some(step.to));
    }
    assert_eq!(store.live_bytes(), 14);
    assert_eq!(store.uncompacted(), 0);
    assert_eq!(store.active_file_id(), 4);
    assert_eq!(store.active_pos(), 0);
    assert_eq!(store.compacted_id(), 3);
    assert!(store.compaction().is_none());
    assert!(store.finish_compaction().is_none());
    assert!(store.can_set("c", 1));
    assert_eq!(compaction.stale_files(&vec![1, 2, 3, 4, 9]), vec![1, 2]);
}

#[test]
fn one_more_set_after_a_compaction_sees_nothing_to_reclaim() {
    let mut store = KvStore::open(&Vec::new());
    assert!(!store.set("a".to_string(), COMPACTION_THRESHOLD));
    assert_eq!(store.uncompacted(), 0);
    assert!(store.set("a".to_string(), 10));
    assert!(store.finish_compaction().is_some());
    assert_eq!(store.uncompacted(), 0);
    assert!(!store.set("c".to_string(), 10));
    assert_eq!(store.uncompacted(), 0);
    assert_eq!(store.locate("c"), Some(CommandMeta { file_id: 3, position: 0, size: 10 }));
    assert_eq!(store.locate("a"), Some(CommandMeta { file_id: 2, position: 0, size: 10 }));
}

#[test]
fn just_below_the_threshold_does_not_compact() {
    let mut store = KvStore::open(&Vec::new());
    store.set("a".to_string(), COMPACTION_THRESHOLD - 1);
    assert!(!store.set("a".to_string(), 10));
    assert_eq!(store.uncompacted(), COMPACTION_THRESHOLD - 1);
    assert!(matches!(store.remove("a", 1), Ok(true)));
    assert_eq!(store.uncompacted(), COMPACTION_THRESHOLD + 10);
    assert!(store.finish_compaction().unwrap().moves.is_empty());
    assert_eq!(store.uncompacted(), 0);
    assert_eq!(store.live_bytes(), 0);
}

#[test]
fn a_remove_can_bring_the_compaction() {
    let mut store = KvStore::open(&Vec::new());
    store.set("a".to_string(), 100);
    store.set("b".to_string(), 50);
    assert!(matches!(store.remove("a", COMPACTION_THRESHOLD - 100), Ok(true)));
    let compaction = store.finish_compaction().expect("due");
    assert_eq!(compaction.compaction_id, 2);
    assert_eq!(compaction.active_id, 3);
    assert_eq!(compaction.moves.len(), 1);
    assert_eq!(compaction.moves[0].key, "b");
    assert_eq!(compaction.moves[0].from, CommandMeta { file_id: 1, position: 100, size: 50 });
    assert_eq!(compaction.moves[0].to, CommandMeta { file_id: 2, position: 0, size: 50 });
}

#[test]
fn compact_on_its_own_moves_every_live_record_once() {
    let mut store = KvStore::open(&vec![5]);
    for (i, key) in ["a", "b", "c", "d", "e"].iter().enumerate() {
        store.set(key.to_string(), 10 + i as u64);
    }
    store.set("c".to_string(), 100);
    store.remove("d", 9).unwrap();
    let live_before = store.live_bytes();
    store.start_compaction();
    let compaction = store.finish_compaction().unwrap();
    assert_eq!(compaction.compaction_id, 7);
    assert_eq!(compaction.active_id, 8);
    let mut keys: Vec<&str> = compaction.moves.iter().map(|m| m.key.as_str()).collect();
    keys.sort();
    assert_eq!(keys, vec!["a", "b", "c", "e"]);
    let copied: u64 = compaction.moves.iter().map(|m| m.to.size).sum();
    assert_eq!(copied, live_before);
    assert_eq!(store.live_bytes(), live_before);
    assert_eq!(live_before, 10 + 11 + 100 + 14);
}

#[test]
fn can_set_and_can_remove_tell_when_the_counters_are_full() {
    let mut store = KvStore::open(&Vec::new());
    assert!(store.can_set("a", u64::MAX));
    store.set("a".to_string(), 10);
    assert!(store.can_set("a", u64::MAX - 10));
    assert!(!store.can_set("a", u64::MAX - 9));
    assert!(store.has_room(u64::MAX - 10));
    assert!(!store.has_room(u64::MAX - 9));
    assert!(store.can_remove("a", 5));
    assert!(!store.can_remove("a", u64::MAX));

    let mut last = KvStore::open(&vec![u64::MAX - 2]);
    assert_eq!(last.active_file_id(), u64::MAX - 1);
    assert!(last.can_set("a", 10));
    assert!(!last.set("a".to_string(), COMPACTION_THRESHOLD));
    assert!(!last.can_set("a", 10));
    assert!(last.can_set("b", 10));
    assert!(!last.can_remove("a", 10));
}

#[test]
fn set_then_get_gives_the_value() {
    let mut disk = Disk::new();
    let mut engine = Engine::open(&disk);
    engine.set(&mut disk, "foo", "bar");
    assert_eq!(engine.get(&disk, "foo").unwrap(), text("bar"));
    assert_eq!(engine.get(&disk, "missing").unwrap(), None);
}

#[test]
fn the_last_set_wins() {
    let mut disk = Disk::new();
    let mut engine = Engine::open(&disk);
    engine.set(&mut disk, "k", "v1");
    engine.set(&mut disk, "k", "v2");
    assert_eq!(engine.get(&disk, "k").unwrap(), text("v2"));
}

#[test]
fn remove_then_get_gives_nothing_and_a_second_remove_fails() {
    let mut disk = Disk::new();
    let mut engine = Engine::open(&disk);
    engine.set(&mut disk, "k", "v");
    engine.remove(&mut disk, "k").unwrap();
    assert_eq!(engine.get(&disk, "k").unwrap(), None);
    assert!(matches!(engine.remove(&mut disk, "k"), Err(KvsError::KeyNotFound)));
    assert!(matches!(engine.remove(&mut disk, "never"), Err(KvsError::KeyNotFound)));
}

#[test]
fn an_empty_directory_gets_no_log_file_before_the_first_write() {
    let mut disk = Disk::new();
    let mut engine = Engine::open(&disk);
    assert!(disk.files.is_empty());
    assert_eq!(engine.get(&disk, "k").unwrap(), None);
    assert!(matches!(engine.remove(&mut disk, "k"), Err(KvsError::KeyNotFound)));
    assert!(disk.files.is_empty());
    let again = Engine::open(&disk);
    assert_eq!(again.store.active_file_id(), 1);
    engine.set(&mut disk, "k", "v");
    assert_eq!(disk.files.keys().copied().collect::<Vec<u64>>(), vec![1]);
}

#[test]
fn reopening_gives_the_same_answers() {
    let mut disk = Disk::new();
    let mut engine = Engine::open(&disk);
    let keys: Vec<String> = (0..40).map(|i| format!("key{}", i)).collect();
    for round in 0..5 {
        for (i, key) in keys.iter().enumerate() {
            if (i + round) % 3 == 0 {
                engine.set(&mut disk, key, &format!("value {} of round {}", i, round));
            } else if (i + round) % 7 == 0 {
                let _ = engine.remove(&mut disk, key);
            }
        }
        let mut reopened = Engine::open(&disk);
        for key in &keys {
            assert_eq!(reopened.get(&disk, key).unwrap(), engine.get(&disk, key).unwrap());
            assert_eq!(reopened.store.locate(key), engine.store.locate(key));
        }
        engine = reopened;
    }
}

#[test]
fn reopening_gives_the_last_value_set_and_not_removed() {
    let mut disk = Disk::new();
    let mut engine = Engine::open(&disk);
    let mut expected: BTreeMap<String, String> = BTreeMap::new();
    let mut seed: u64 = 0x2545_f491_4f6c_dd1d;
    for step in 0..600 {
        seed ^= seed << 13;
        seed ^= seed >> 7;
        seed ^= seed << 17;
        let key = format!("k{}", seed % 23);
        if seed % 5 == 0 {
            let outcome = engine.remove(&mut disk, &key);
            assert_eq!(outcome.is_ok(), expected.remove(&key).is_some());
        } else {
            let value = format!("v{}-{}", step, seed % 1000);
            engine.set(&mut disk, &key, &value);
            expected.insert(key, value);
        }
    }
    let mut reopened = Engine::open(&disk);
    for i in 0..23 {
        let key = format!("k{}", i);
        assert_eq!(reopened.get(&disk, &key).unwrap(), expected.get(&key).cloned());
        assert_eq!(engine.get(&disk, &key).unwrap(), expected.get(&key).cloned());
    }
}

#[test]
fn twenty_thousand_overwritten_keys_survive_a_restart() {
    let mut disk = Disk::new();
    let mut engine = Engine::open(&disk);
    let filler = "x".repeat(100);
    let count = 20_000;
    for i in 0..count {
        engine.set(&mut disk, &format!("key{}", i), &format!("first {} {}", i, filler));
    }
    assert_eq!(engine.store.compacted_id(), 0);
    let mut compactions = 0;
    let mut watermark = 0;
    for i in 0..count {
        engine.set(&mut disk, &format!("key{}", i), &format!("second {} {}", i, filler));
        if engine.store.compacted_id() != watermark {
            watermark = engine.store.compacted_id();
            compactions += 1;
            assert_eq!(engine.store.uncompacted(), 0);
            assert!(disk.files.keys().all(|id| *id >= watermark));
            let on_disk: u64 = disk.files.values().map(|f| f.len() as u64).sum();
            assert_eq!(on_disk, engine.store.live_bytes());
        }
    }
    assert!(compactions >= 1);
    for i in (0..count).step_by(97) {
        let key = format!("key{}", i);
        assert_eq!(engine.get(&disk, &key).unwrap(), text(&format!("second {} {}", i, filler)));
    }
    let mut reopened = Engine::open(&disk);
    for i in 0..count {
        let key = format!("key{}", i);
        assert_eq!(reopened.get(&disk, &key).unwrap(), text(&format!("second {} {}", i, filler)));
    }
}

#[test]
fn a_compaction_copies_no_more_than_the_live_bytes() {
    let mut disk = Disk::new();
    let mut engine = Engine::open(&disk);
    for i in 0..50 {
        engine.set(&mut disk, &format!("key{}", i % 10), &format!("value{}", i));
    }
    let live = engine.store.live_bytes();
    let before: u64 = disk.files.values().map(|f| f.len() as u64).sum();
    assert_eq!(before, live + engine.store.uncompacted());
    engine.store.start_compaction();
    compact(&mut engine.store, &mut disk);
    let after: u64 = disk.files.values().map(|f| f.len() as u64).sum();
    assert_eq!(after, live);
    assert_eq!(engine.store.live_bytes(), live);
    for i in 40..50 {
        assert_eq!(engine.get(&disk, &format!("key{}", i % 10)).unwrap(), text(&format!("value{}", i)));
    }
}

#[test]
fn a_truncated_last_record_ends_the_replay_of_its_file() {
    let first = Command::set_at(1, "a".to_string(), "1".to_string()).encode().unwrap();
    let second = Command::set_at(2, "b".to_string(), "2".to_string()).encode().unwrap();
    let third = Command::set_at(3, "a".to_string(), "3".to_string()).encode().unwrap();
    let mut bytes = Vec::new();
    bytes.extend_from_slice(first.as_bytes());
    bytes.extend_from_slice(second.as_bytes());
    bytes.extend_from_slice(&third.as_bytes()[..third.len() - 5]);
    let mut store = KvStore::open(&vec![1, 2]);
    store.replay_file(1, &bytes).unwrap();
    assert_eq!(store.locate("a"), Some(CommandMeta { file_id: 1, position: 0, size: first.len() as u64 }));
    assert_eq!(
        store.locate("b"),
        Some(CommandMeta { file_id: 1, position: first.len() as u64, size: second.len() as u64 })
    );
    let next = Command::remove_at(4, "b".to_string()).encode().unwrap();
    store.replay_file(2, next.as_bytes()).unwrap();
    assert_eq!(store.locate("b"), None);
    assert_eq!(store.uncompacted(), (second.len() + next.len()) as u64);
    assert_eq!(store.active_file_id(), 3);
}

#[test]
fn a_file_of_one_truncated_record_replays_as_empty() {
    let record = Command::set_at(1, "a".to_string(), "1".to_string()).encode().unwrap();
    let mut disk = Disk::new();
    disk.append(1, &record.as_bytes()[..10]);
    disk.append(2, Command::set_at(2, "b".to_string(), "2".to_string()).encode().unwrap().as_bytes());
    let mut engine = Engine::open(&disk);
    assert_eq!(engine.get(&disk, "a").unwrap(), None);
    assert_eq!(engine.get(&disk, "b").unwrap(), text("2"));
    assert_eq!(engine.store.active_file_id(), 3);
}

#[test]
fn replay_file_takes_white_space_as_part_of_the_next_record() {
    let first = Command::set_at(1, "a".to_string(), "1".to_string()).encode().unwrap();
    let second = Command::set_at(2, "b".to_string(), "2".to_string()).encode().unwrap();
    let bytes = format!("{}\n  {}\n", first, second);
    let mut store = KvStore::open(&vec![1]);
    store.replay_file(1, bytes.as_bytes()).unwrap();
    let a = store.locate("a").unwrap();
    let b = store.locate("b").unwrap();
    assert_eq!(a, CommandMeta { file_id: 1, position: 0, size: first.len() as u64 });
    assert_eq!(b, CommandMeta { file_id: 1, position: first.len() as u64, size: second.len() as u64 + 3 });
    let span = &bytes.as_bytes()[b.position as usize..(b.position + b.size) as usize];
    assert_eq!(StableLog::read_value(span).unwrap(), text("2"));
}

#[test]
fn replay_file_refuses_what_is_no_record() {
    let good = Command::set_at(1, "a".to_string(), "1".to_string()).encode().unwrap();

    let mut store = KvStore::open(&vec![1]);
    let bytes = format!("{}{}", good, r#"{"Bump":{"timestamp":1,"key":"a"}}"#);
    assert!(matches!(store.replay_file(1, bytes.as_bytes()), Err(KvsError::UnknownCommand)));
    assert!(store.contains_key("a"));

    let mut store = KvStore::open(&vec![1]);
    let bytes = format!("{}{}", good, "not json at all");
    assert!(matches!(store.replay_file(1, bytes.as_bytes()), Err(KvsError::SerdeError(_))));
    assert!(store.contains_key("a"));

    let mut store = KvStore::open(&vec![1]);
    let bytes = format!("{}{}", r#"{"Set":{"timestamp":1,"key":"b"}}"#, good);
    assert!(matches!(store.replay_file(1, bytes.as_bytes()), Err(KvsError::SerdeError(_))));
    assert!(!store.contains_key("a"));
    assert!(!store.contains_key("b"));

    let mut store = KvStore::open(&vec![1]);
    assert!(store.replay_file(1, b"").is_ok());
    assert!(store.replay_file(1, b" \n\t ").is_ok());
    assert_eq!(store.live_bytes(), 0);
    assert_eq!(store.uncompacted(), 0);
}

#[test]
fn the_reader_cache_opens_on_demand_and_evicts_below_the_watermark() {
    let mut cache = StableLog::new();
    assert!(!cache.is_open(3));
    let meta = CommandMeta { file_id: 3, position: 10, size: 20 };
    let plan = cache.locate(&meta, 0).unwrap();
    assert!(plan.open);
    assert!(plan.evicted.is_empty());
    assert_eq!((plan.file_id, plan.position, plan.size), (3, 10, 20));
    assert!(!cache.is_open(3));
    cache.opened(3);
    assert!(cache.is_open(3));
    let plan = cache.locate(&meta, 3).unwrap();
    assert!(!plan.open);
    assert!(plan.evicted.is_empty());

    cache.opened(1);
    cache.opened(7);
    cache.opened(5);
    cache.opened(5);
    let plan = cache.locate(&CommandMeta { file_id: 9, position: 0, size: 1 }, 5).unwrap();
    assert!(plan.open);
    assert_eq!(plan.evicted, vec![1, 3]);
    assert!(!cache.is_open(1));
    assert!(!cache.is_open(3));
    assert!(cache.is_open(5));
    assert!(cache.is_open(7));
    assert!(!cache.is_open(9));
}

#[test]
fn the_reader_cache_refuses_a_pointer_below_the_watermark() {
    let mut cache = StableLog::new();
    cache.opened(2);
    cache.opened(4);
    let stale = CommandMeta { file_id: 2, position: 0, size: 5 };
    assert!(matches!(cache.locate(&stale, 3), Err(KvsError::LogFileNotFound)));
    assert!(!cache.is_open(2));
    assert!(cache.is_open(4));
    assert_eq!(cache.remove_stale_log(10), vec![4]);
    assert_eq!(cache.remove_stale_log(10), Vec::<u64>::new());
}

#[test]
fn a_meta_is_made_of_file_position_and_size() {
    let meta: CommandMeta = (3, 14, 15).into();
    assert_eq!(meta, CommandMeta { file_id: 3, position: 14, size: 15 });
    assert_eq!(CommandMeta::from((0, 0, 0)), CommandMeta { file_id: 0, position: 0, size: 0 });
}

#[test]
fn a_read_is_planned_from_the_key_and_the_cache() {
    let mut store = KvStore::open(&vec![2]);
    let mut cache = StableLog::new();
    assert!(store.plan_read("a", &mut cache).is_none());
    store.replay(2, 5, 25, &Command::set_at(1, "a".to_string(), "v".to_string()));
    cache.opened(1);
    let plan = store.plan_read("a", &mut cache).unwrap();
    assert_eq!((plan.file_id, plan.position, plan.size), (2, 5, 20));
    assert!(plan.open);
    assert!(plan.evicted.is_empty());
    cache.opened(2);
    store.start_compaction();
    let plan = store.plan_read("a", &mut cache).unwrap();
    assert_eq!((plan.file_id, plan.position, plan.size), (2, 5, 20));
    assert!(!plan.open);
    let compaction = store.finish_compaction().unwrap();
    assert_eq!(store.compacted_id(), 4);
    let plan = store.plan_read("a", &mut cache).unwrap();
    assert_eq!((plan.file_id, plan.position, plan.size), (4, 0, 20));
    assert_eq!(compaction.moves[0].to, CommandMeta { file_id: 4, position: 0, size: 20 });
    assert!(plan.open);
    assert_eq!(plan.evicted, vec![1, 2]);
    assert!(store.plan_read("b", &mut cache).is_none());
}

#[test]
fn reads_go_on_while_a_compaction_copies() {
    let mut disk = Disk::new();
    let mut engine = Engine::open(&disk);
    for i in 0..30 {
        engine.set(&mut disk, &format!("key{}", i % 10), &format!("value{}", i));
    }
    engine.store.start_compaction();
    let moves = engine.store.compaction().unwrap().moves.len();
    assert_eq!(moves, 10);
    // The compaction file grows record by record; the store still points at the old file.
    for copied in 0..=moves {
        let mut target = Vec::new();
        for step in &engine.store.compaction().unwrap().moves[..copied] {
            target.extend_from_slice(&disk.read(&step.from));
        }
        disk.files.insert(engine.store.compaction().unwrap().compaction_id, target);
        for i in 20..30 {
            assert_eq!(engine.get(&disk, &format!("key{}", i % 10)).unwrap(), text(&format!("value{}", i)));
        }
    }
    let compaction = engine.store.finish_compaction().unwrap();
    disk.sweep(&compaction);
    assert_eq!(disk.files.keys().copied().collect::<Vec<u64>>(), vec![compaction.compaction_id]);
    for i in 20..30 {
        assert_eq!(engine.get(&disk, &format!("key{}", i % 10)).unwrap(), text(&format!("value{}", i)));
    }
}

#[test]
fn a_crash_while_copying_loses_nothing() {
    let mut disk = Disk::new();
    let mut engine = Engine::open(&disk);
    for i in 0..30 {
        engine.set(&mut disk, &format!("key{}", i % 10), &format!("value{}", i));
    }
    engine.remove(&mut disk, "key3").unwrap();
    engine.store.start_compaction();
    let plan = engine.store.compaction().unwrap();
    for copied in 0..=plan.moves.len() {
        for cut in [0usize, 7] {
            // The store dies after `copied` records, and perhaps in the middle of the next.
            let mut crashed = Disk { files: disk.files.clone() };
            let mut target = Vec::new();
            for step in &plan.moves[..copied] {
                target.extend_from_slice(&disk.read(&step.from));
            }
            if copied < plan.moves.len() {
                target.extend_from_slice(&disk.read(&plan.moves[copied].from)[..cut]);
            }
            crashed.files.insert(plan.compaction_id, target);
            let mut reopened = Engine::open(&crashed);
            assert_eq!(reopened.store.active_file_id(), plan.compaction_id + 1);
            for i in 20..30 {
                let expected = if i % 10 == 3 { None } else { text(&format!("value{}", i)) };
                assert_eq!(reopened.get(&crashed, &format!("key{}", i % 10)).unwrap(), expected);
            }
            // The reopened store goes on from there.
            reopened.set(&mut crashed, "key3", "again");
            assert_eq!(reopened.get(&crashed, "key3").unwrap(), text("again"));
            let mut once_more = Engine::open(&crashed);
            assert_eq!(once_more.get(&crashed, "key3").unwrap(), text("again"));
            assert_eq!(once_more.get(&crashed, "key4").unwrap(), text("value24"));
        }
    }
}

#[test]
fn a_crash_in_the_middle_of_an_append_loses_only_that_record() {
    let mut disk = Disk::new();
    let mut engine = Engine::open(&disk);
    engine.set(&mut disk, "a", "1");
    engine.set(&mut disk, "b", "2");
    let torn = Command::set_at(9, "a".to_string(), "3".to_string()).encode().unwrap();
    for cut in 1..torn.len() {
        let mut crashed = Disk { files: disk.files.clone() };
        crashed.append(1, &torn.as_bytes()[..cut]);
        let mut reopened = Engine::open(&crashed);
        assert_eq!(reopened.get(&crashed, "a").unwrap(), text("1"));
        assert_eq!(reopened.get(&crashed, "b").unwrap(), text("2"));
        reopened.set(&mut crashed, "a", "4");
        assert_eq!(reopened.store.locate("a").unwrap().file_id, 2);
        let mut again = Engine::open(&crashed);
        assert_eq!(again.get(&crashed, "a").unwrap(), text("4"));
        assert_eq!(again.get(&crashed, "b").unwrap(), text("2"));
    }
}

#[test]
fn a_crash_while_deleting_brings_nothing_back() {
    let mut disk = Disk::new();
    // Three files of history: the key `gone` is set in the first and removed in the third.
    let mut first = Engine::open(&disk);
    first.set(&mut disk, "gone", "soon");
    first.set(&mut disk, "kept", "1");
    let mut second = Engine::open(&disk);
    second.set(&mut disk, "kept", "2");
    second.set(&mut disk, "other", "x");
    let mut third = Engine::open(&disk);
    third.remove(&mut disk, "gone").unwrap();
    third.set(&mut disk, "late", "y");
    assert_eq!(disk.files.keys().copied().collect::<Vec<u64>>(), vec![1, 2, 3]);

    third.store.start_compaction();
    disk.copy(third.store.compaction().unwrap());
    let compaction = third.store.finish_compaction().unwrap();
    assert_eq!(compaction.compaction_id, 4);
    let stale = compaction.stale_files(&list_log_file_in(&disk.names()));
    assert_eq!(stale, vec![1, 2, 3]);

    // The stale files go oldest first; the store may die after any of them.
    for deleted in 0..=stale.len() {
        let mut crashed = Disk { files: disk.files.clone() };
        for id in &stale[..deleted] {
            crashed.files.remove(id);
        }
        let mut reopened = Engine::open(&crashed);
        assert_eq!(reopened.get(&crashed, "gone").unwrap(), None);
        assert_eq!(reopened.get(&crashed, "kept").unwrap(), text("2"));
        assert_eq!(reopened.get(&crashed, "other").unwrap(), text("x"));
        assert_eq!(reopened.get(&crashed, "late").unwrap(), text("y"));
        assert_eq!(reopened.store.active_file_id(), 5);
    }
}

#[test]
fn replay_next_takes_one_whole_record_at_a_time() {
    let first = Command::set_at(1, "a".to_string(), "1".to_string()).encode().unwrap();
    let second = Command::remove_at(2, "a".to_string()).encode().unwrap();
    let bytes = format!("{} {}", first, second);
    let mut store = KvStore::open(&vec![7]);

    assert!(matches!(store.replay_next(7, 0, b""), Ok(None)));
    assert!(matches!(store.replay_next(7, 0, b"  \n"), Ok(None)));
    assert!(matches!(store.replay_next(7, 0, &bytes.as_bytes()[..first.len() - 1]), Ok(None)));
    assert_eq!(store.locate("a"), None);
    assert_eq!(store.uncompacted(), 0);

    let taken = store.replay_next(7, 0, bytes.as_bytes()).unwrap().unwrap();
    assert_eq!(taken.consumed, first.len());
    assert_eq!(taken.end, first.len() as u64);
    assert_eq!(store.locate("a"), Some(CommandMeta { file_id: 7, position: 0, size: first.len() as u64 }));

    let rest = &bytes.as_bytes()[taken.consumed..];
    let taken = store.replay_next(7, taken.end, rest).unwrap().unwrap();
    assert_eq!(taken.consumed, second.len() + 1);
    assert_eq!(taken.end, bytes.len() as u64);
    assert_eq!(store.locate("a"), None);
    assert_eq!(store.uncompacted(), bytes.len() as u64);
    assert!(matches!(store.replay_next(7, taken.end, b""), Ok(None)));
    assert_eq!(store.active_file_id(), 8);
    assert_eq!(store.compacted_id(), 0);
}

#[test]
fn replay_next_refuses_what_is_no_record_and_changes_nothing() {
    let mut store = KvStore::open(&vec![1]);
    store.replay(1, 0, 10, &Command::set_at(1, "a".to_string(), "1".to_string()));
    assert!(matches!(store.replay_next(1, 10, b"nonsense"), Err(KvsError::SerdeError(_))));
    assert!(matches!(store.replay_next(1, 10, b"[1]"), Err(KvsError::SerdeError(_))));
    assert!(matches!(
        store.replay_next(1, 10, br#"{"Set":{"timestamp":1,"key":"a"}}"#),
        Err(KvsError::SerdeError(_))
    ));
    assert!(matches!(
        store.replay_next(1, 10, br#"{"Swap":{"timestamp":1,"key":"a"}}"#),
        Err(KvsError::UnknownCommand)
    ));
    assert_eq!(store.locate("a"), Some(CommandMeta { file_id: 1, position: 0, size: 10 }));
    assert_eq!(store.uncompacted(), 0);
    assert_eq!(store.live_bytes(), 10);
}

#[test]
fn a_file_replays_the_same_piece_by_piece_as_at_once() {
    let mut disk = Disk::new();
    let mut engine = Engine::open(&disk);
    for i in 0..200 {
        engine.set(&mut disk, &format!("key{}", i % 17), &format!("value {} \u{1F980} \"quoted\"", i));
        if i % 5 == 0 {
            let _ = engine.remove(&mut disk, &format!("key{}", (i + 3) % 17));
        }
    }
    let bytes = &disk.files[&1];
    let mut whole = KvStore::open(&vec![1]);
    whole.replay_file(1, bytes).unwrap();
    for piece in [1usize, 3, 64, 1000] {
        let mut store = KvStore::open(&vec![1]);
        let mut pending: Vec<u8> = Vec::new();
        let mut start = 0;
        let mut fed = 0;
        loop {
            match store.replay_next(1, start, &pending).unwrap() {
                Some(taken) => {
                    pending.drain(..taken.consumed);
                    start = taken.end;
                }
                None => {
                    if fed == bytes.len() {
                        break;
                    }
                    let upto = (fed + piece).min(bytes.len());
                    pending.extend_from_slice(&bytes[fed..upto]);
                    fed = upto;
                }
            }
        }
        assert_eq!(start, bytes.len() as u64);
        for i in 0..17 {
            let key = format!("key{}", i);
            assert_eq!(store.locate(&key), whole.locate(&key));
            assert_eq!(store.locate(&key), engine.store.locate(&key));
        }
        assert_eq!(store.uncompacted(), whole.uncompacted());
        assert_eq!(store.live_bytes(), whole.live_bytes());
    }
}
