//! The log files as the store believes them to be, and what holds between
//! them and the store.
//!
//! A store tracks its files (`tracks`) when the directory points each live
//! key at a `Put` record of that key, a replay of the files gives the
//! directory back, the active file is the last one, and every byte of the
//! files is counted as live or as reclaimable. The laws of this module say
//! that the store keeps track of its files through everything it does:
//!
//! - through a `set`, a `remove` and a compaction (`set_keeps_track`,
//!   `remove_keeps_track`, `compaction_keeps_track`), and so through any
//!   sequence of them (`events_keep_track`);
//! - through a restart (`recovery_keeps_track`), so that a reopened store
//!   reads what the store read before
//!   (`reopened_store_reads_last_values`); and whatever files a store is
//!   opened on, the latest record of each key decides
//!   (`recovery_follows_latest_records`);
//! - while a compaction copies, for the readers
//!   (`copying_disturbs_no_read`), and for a store that is opened after a
//!   crash in the middle of it (`crash_while_copying_loses_nothing`), or
//!   in the middle of deleting the files that the compaction has replaced
//!   (`crash_while_deleting_loses_nothing`).

use super::accounting::{
    lemma_listed_bytes, lemma_live_bytes_insert, lemma_live_bytes_without, listed_bytes, live_bytes,
};
use super::command::{record_of, CommandMeta, Record};
use super::kv::{lemma_same_sizes, max_id, relocated, replay_bytes, Compaction, StoreView};
use crate::json::{json_prefix, Prefix};
use vstd::prelude::*;

verus! {

/// One record in a log file, with the number of bytes it takes there.
pub struct LogEntry {
    pub record: Record,
    pub len: u64,
}

/// One log file: its id and its records, in the order of the file.
pub struct LogFile {
    pub id: u64,
    pub entries: Seq<LogEntry>,
}

/// The number of bytes that the records take together.
pub open spec fn file_len(entries: Seq<LogEntry>) -> nat
    decreases entries.len(),
{
    if entries.len() == 0 {
        0
    } else {
        file_len(entries.drop_last()) + entries.last().len as nat
    }
}

/// The offset at which the record `i` of a file starts.
pub open spec fn offset_of(entries: Seq<LogEntry>, i: int) -> nat {
    file_len(entries.take(i))
}

/// The ids of the files, in their order.
pub open spec fn file_ids(files: Seq<LogFile>) -> Seq<u64> {
    files.map_values(|file: LogFile| file.id)
}

/// The number of bytes that the files take together.
pub open spec fn disk_bytes(files: Seq<LogFile>) -> nat
    decreases files.len(),
{
    if files.len() == 0 {
        0
    } else {
        disk_bytes(files.drop_last()) + file_len(files.last().entries)
    }
}

/// What a data directory can hold: the ids ascend, no file is longer than
/// an offset can say, and no record is empty.
pub open spec fn files_wf(files: Seq<LogFile>) -> bool {
    &&& forall|f: int, g: int| 0 <= f < g < files.len() ==> files[f].id < files[g].id
    &&& forall|f: int| 0 <= f < files.len() ==> file_len((#[trigger] files[f]).entries) <= u64::MAX
    &&& forall|f: int, i: int|
        0 <= f < files.len() && 0 <= i < files[f].entries.len() ==> (#[trigger] files[f].entries[i]).len
            >= 1
}

/// The store after the records of one file are replayed in order.
pub open spec fn replay_entries(s: StoreView, id: u64, entries: Seq<LogEntry>) -> StoreView
    decreases entries.len(),
{
    if entries.len() == 0 {
        s
    } else {
        replay_entries(s, id, entries.drop_last()).after_replay(
            id,
            file_len(entries.drop_last()) as u64,
            entries.last().len,
            entries.last().record,
        )
    }
}

/// The store after the files are replayed in order.
pub open spec fn replay_files(s: StoreView, files: Seq<LogFile>) -> StoreView
    decreases files.len(),
{
    if files.len() == 0 {
        s
    } else {
        replay_entries(replay_files(s, files.drop_last()), files.last().id, files.last().entries)
    }
}

/// The store that opening the directory and replaying its files gives.
pub open spec fn recovered(files: Seq<LogFile>) -> StoreView {
    replay_files(StoreView::initial(file_ids(files)), files)
}

/// Whether the record `i` of the file at index `f` takes exactly the bytes
/// that `meta` names.
pub open spec fn lies_at(files: Seq<LogFile>, meta: CommandMeta, f: int, i: int) -> bool {
    &&& 0 <= f < files.len()
    &&& files[f].id == meta.file_id
    &&& 0 <= i < files[f].entries.len()
    &&& offset_of(files[f].entries, i) == meta.position
    &&& files[f].entries[i].len == meta.size
}

/// The record that takes exactly the bytes that `meta` names, if there is
/// one.
pub open spec fn read(files: Seq<LogFile>, meta: CommandMeta) -> Option<Record> {
    if exists|f: int, i: int| lies_at(files, meta, f, i) {
        let (f, i) = choose|f: int, i: int| lies_at(files, meta, f, i);
        Some(files[f].entries[i].record)
    } else {
        None
    }
}

/// Whether the bytes that `meta` names are a `Put` record that gives `key`
/// the `value`.
pub open spec fn holds(files: Seq<LogFile>, meta: CommandMeta, key: Seq<char>, value: Seq<char>) -> bool {
    match read(files, meta) {
        Some(Record::Put { key: k, value: v, .. }) => k == key && v == value,
        _ => false,
    }
}

/// What `get` returns for `key`: nothing if the key is not live; the value
/// of the `Put` record that the directory points at; `Err` if there is no
/// such record there.
pub open spec fn get(s: StoreView, files: Seq<LogFile>, key: Seq<char>) -> Result<Option<Seq<char>>, ()> {
    if !s.key_dir.contains_key(key) {
        Ok(None)
    } else {
        match read(files, s.key_dir[key]) {
            Some(Record::Put { value, .. }) => Ok(Some(value)),
            _ => Err(()),
        }
    }
}

/// The files after `entry` is appended to the file `id`, which is the last
/// file or a new one.
pub open spec fn appended(files: Seq<LogFile>, id: u64, entry: LogEntry) -> Seq<LogFile> {
    if files.len() > 0 && files.last().id == id {
        files.drop_last().push(LogFile { id, entries: files.last().entries.push(entry) })
    } else {
        files.push(LogFile { id, entries: seq![entry] })
    }
}

/// The length of the file `id` if it is the last file, and 0 if it is not
/// there.
pub open spec fn active_len(files: Seq<LogFile>, id: u64) -> nat {
    if files.len() > 0 && files.last().id == id {
        file_len(files.last().entries)
    } else {
        0
    }
}

/// Whether the store `s` stands for the contents `m` on the files `files`:
/// the active file is the last, every byte of the files is counted as live
/// or as reclaimable, the directory is what a replay of the files gives, it
/// has the keys of `m`, and it points each key at a `Put` record of that
/// key with the key's value.
pub open spec fn tracks(s: StoreView, files: Seq<LogFile>, m: Map<Seq<char>, Seq<char>>) -> bool {
    &&& s.wf()
    &&& files_wf(files)
    &&& forall|f: int| 0 <= f < files.len() ==> (#[trigger] files[f]).id <= s.active_id
    &&& active_len(files, s.active_id) == s.active_pos
    &&& disk_bytes(files) == s.total_bytes()
    &&& recovered(files).key_dir == s.key_dir
    &&& s.key_dir.dom() == m.dom()
    &&& forall|key: Seq<char>| #[trigger] m.contains_key(key) ==> holds(files, s.key_dir[key], key, m[key])
}

/// The offsets of a file's records ascend.
proof fn lemma_offsets_ascend(entries: Seq<LogEntry>, i: int, j: int)
    requires
        0 <= i < j <= entries.len(),
        forall|k: int| 0 <= k < entries.len() ==> (#[trigger] entries[k]).len >= 1,
    ensures
        offset_of(entries, i) + entries[i].len <= offset_of(entries, j),
    decreases j - i,
{
    assert(entries.take(j).drop_last() == entries.take(j - 1));
    assert(entries.take(j).last() == entries[j - 1]);
    if i < j - 1 {
        lemma_offsets_ascend(entries, i, j - 1);
    }
}

/// No two records take the same bytes.
proof fn lemma_lies_at_once(files: Seq<LogFile>, meta: CommandMeta, f: int, i: int, g: int, j: int)
    requires
        files_wf(files),
        lies_at(files, meta, f, i),
        lies_at(files, meta, g, j),
    ensures
        f == g,
        i == j,
{
    if f < g {
        assert(files[f].id < files[g].id);
    }
    if g < f {
        assert(files[g].id < files[f].id);
    }
    let entries = files[f].entries;
    assert forall|k: int| 0 <= k < entries.len() implies (#[trigger] entries[k]).len >= 1 by {
        assert(files[f].entries[k].len >= 1);
    }
    if i < j {
        lemma_offsets_ascend(entries, i, j);
    }
    if j < i {
        lemma_offsets_ascend(entries, j, i);
    }
}

/// A record that takes the bytes that `meta` names is the one that is read
/// there.
proof fn lemma_read_at(files: Seq<LogFile>, meta: CommandMeta, f: int, i: int)
    requires
        files_wf(files),
        lies_at(files, meta, f, i),
    ensures
        read(files, meta) == Some(files[f].entries[i].record),
{
    let (g, j) = choose|g: int, j: int| lies_at(files, meta, g, j);
    lemma_lies_at_once(files, meta, f, i, g, j);
}

/// What a replay makes of the directory depends on the directory alone.
proof fn lemma_replay_entries_dir(s1: StoreView, s2: StoreView, id: u64, entries: Seq<LogEntry>)
    requires
        s1.key_dir == s2.key_dir,
    ensures
        replay_entries(s1, id, entries).key_dir == replay_entries(s2, id, entries).key_dir,
    decreases entries.len(),
{
    if entries.len() > 0 {
        lemma_replay_entries_dir(s1, s2, id, entries.drop_last());
    }
}

/// What a replay makes of the directory depends on the directory alone.
proof fn lemma_replay_files_dir(s1: StoreView, s2: StoreView, files: Seq<LogFile>)
    requires
        s1.key_dir == s2.key_dir,
    ensures
        replay_files(s1, files).key_dir == replay_files(s2, files).key_dir,
    decreases files.len(),
{
    if files.len() > 0 {
        lemma_replay_files_dir(s1, s2, files.drop_last());
        lemma_replay_entries_dir(
            replay_files(s1, files.drop_last()),
            replay_files(s2, files.drop_last()),
            files.last().id,
            files.last().entries,
        );
    }
}

/// Replaying the files with one more record at the end is replaying the
/// files and then that record.
proof fn lemma_replay_appended(s: StoreView, files: Seq<LogFile>, id: u64, entry: LogEntry)
    ensures
        replay_files(s, appended(files, id, entry)) == replay_files(s, files).after_replay(
            id,
            active_len(files, id) as u64,
            entry.len,
            entry.record,
        ),
{
    let after = appended(files, id, entry);
    if files.len() > 0 && files.last().id == id {
        let entries = files.last().entries;
        assert(after.drop_last() == files.drop_last());
        assert(after.last().entries.drop_last() == entries);
    } else {
        assert(after.drop_last() == files);
        let only = seq![entry];
        assert(only.drop_last().len() == 0);
        assert(replay_entries(replay_files(s, files), id, only.drop_last()) == replay_files(s, files));
    }
}

/// Appending to the active file leaves the files in order.
proof fn lemma_appended_wf(files: Seq<LogFile>, id: u64, entry: LogEntry)
    requires
        files_wf(files),
        forall|f: int| 0 <= f < files.len() ==> (#[trigger] files[f]).id <= id,
        active_len(files, id) + entry.len <= u64::MAX,
        entry.len >= 1,
    ensures
        files_wf(appended(files, id, entry)),
        forall|f: int| 0 <= f < appended(files, id, entry).len() ==> (#[trigger] appended(files, id, entry)[f]).id <= id,
        active_len(appended(files, id, entry), id) == active_len(files, id) + entry.len,
        disk_bytes(appended(files, id, entry)) == disk_bytes(files) + entry.len,
{
    let after = appended(files, id, entry);
    if files.len() > 0 && files.last().id == id {
        let entries = files.last().entries;
        let last = files.len() - 1;
        assert(after[last].entries.drop_last() == entries);
        assert(after.drop_last() == files.drop_last());
        assert forall|f: int| 0 <= f < after.len() implies file_len((#[trigger] after[f]).entries)
            <= u64::MAX by {
            if f < last {
                assert(after[f] == files[f]);
            }
        }
        assert forall|f: int, i: int| 0 <= f < after.len() && 0 <= i < after[f].entries.len() implies (
        #[trigger] after[f].entries[i]).len >= 1 by {
            if f < last {
                assert(after[f] == files[f]);
                assert(files[f].entries[i].len >= 1);
            } else if i < entries.len() {
                assert(after[f].entries[i] == files[last].entries[i]);
            }
        }
        assert forall|f: int, g: int| 0 <= f < g < after.len() implies after[f].id < after[g].id by {
            assert(files[f].id < files[g].id);
        }
    } else {
        let only = seq![entry];
        assert(only.drop_last().len() == 0);
        assert(file_len(only.drop_last()) == 0);
        assert(only.last() == entry);
        assert(file_len(only) == entry.len);
        assert(after.drop_last() == files);
        assert forall|f: int| 0 <= f < after.len() implies file_len((#[trigger] after[f]).entries)
            <= u64::MAX by {
            if f < files.len() {
                assert(after[f] == files[f]);
            }
        }
        assert forall|f: int, i: int| 0 <= f < after.len() && 0 <= i < after[f].entries.len() implies (
        #[trigger] after[f].entries[i]).len >= 1 by {
            if f < files.len() {
                assert(after[f] == files[f]);
                assert(files[f].entries[i].len >= 1);
            }
        }
        assert forall|f: int, g: int| 0 <= f < g < after.len() implies after[f].id < after[g].id by {
            if g < files.len() {
                assert(files[f].id < files[g].id);
            } else {
                assert(files[f].id <= id);
                if files[f].id == id {
                    assert(files[f].id <= files.last().id);
                    if f < files.len() - 1 {
                        assert(files[f].id < files[files.len() - 1].id);
                    }
                    assert(files.last().id <= id);
                }
            }
        }
    }
}

/// A record that lay in the files lies there after an append, and the new
/// record lies at the end of the active file.
proof fn lemma_appended_lies_at(files: Seq<LogFile>, id: u64, entry: LogEntry, meta: CommandMeta, f: int, i: int)
    requires
        lies_at(files, meta, f, i),
    ensures
        lies_at(appended(files, id, entry), meta, f, i),
{
    let after = appended(files, id, entry);
    if files.len() > 0 && files.last().id == id && f == files.len() - 1 {
        let entries = files.last().entries;
        assert(entries.push(entry).take(i) == entries.take(i));
    } else {
        assert(after[f] == files[f]);
    }
}

/// The appended record takes the bytes from the end of the active file.
proof fn lemma_appended_last(files: Seq<LogFile>, id: u64, entry: LogEntry)
    requires
        active_len(files, id) <= u64::MAX,
    ensures
        lies_at(
            appended(files, id, entry),
            CommandMeta { file_id: id, position: active_len(files, id) as u64, size: entry.len },
            appended(files, id, entry).len() - 1,
            appended(files, id, entry).last().entries.len() - 1,
        ),
        appended(files, id, entry).last().entries.last() == entry,
{
    let after = appended(files, id, entry);
    if files.len() > 0 && files.last().id == id {
        let entries = files.last().entries;
        assert(entries.push(entry).take(entries.len() as int) == entries);
    } else {
        assert(seq![entry].take(0).len() == 0);
    }
}

/// The store keeps track of the log through a `set`: once the `Put` record
/// is appended to the active file, the directory is what a replay of the
/// files gives, and `key` has the `value`.
pub proof fn set_keeps_track(
    s: StoreView,
    files: Seq<LogFile>,
    m: Map<Seq<char>, Seq<char>>,
    timestamp: i64,
    key: Seq<char>,
    value: Seq<char>,
    len: u64,
)
    requires
        tracks(s, files, m),
        s.has_room(len),
        len >= 1,
    ensures
        tracks(
            s.after_set(key, len),
            appended(files, s.active_id, LogEntry { record: Record::Put { timestamp, key, value }, len }),
            m.insert(key, value),
        ),
{
    let entry = LogEntry { record: Record::Put { timestamp, key, value }, len };
    let after = appended(files, s.active_id, entry);
    let s2 = s.after_set(key, len);
    let meta = CommandMeta { file_id: s.active_id, position: s.active_pos, size: len };
    lemma_live_bytes_insert(s.key_dir, key, meta);
    lemma_appended_wf(files, s.active_id, entry);
    lemma_replay_appended(StoreView::initial(file_ids(files)), files, s.active_id, entry);
    lemma_replay_files_dir(StoreView::initial(file_ids(after)), StoreView::initial(file_ids(files)), after);
    lemma_appended_last(files, s.active_id, entry);
    lemma_read_at(after, meta, after.len() - 1, after.last().entries.len() - 1);
    assert forall|k: Seq<char>| #[trigger] m.insert(key, value).contains_key(k) implies holds(
        after,
        s2.key_dir[k],
        k,
        m.insert(key, value)[k],
    ) by {
        if k != key {
            assert(m.contains_key(k));
            lemma_holds_after_append(files, s.active_id, entry, s.key_dir[k], k, m[k]);
        }
    }
    assert(s2.key_dir.dom() =~= m.insert(key, value).dom());
}

/// What the directory pointed at before an append, it points at after it.
proof fn lemma_holds_after_append(
    files: Seq<LogFile>,
    id: u64,
    entry: LogEntry,
    meta: CommandMeta,
    key: Seq<char>,
    value: Seq<char>,
)
    requires
        files_wf(appended(files, id, entry)),
        holds(files, meta, key, value),
    ensures
        holds(appended(files, id, entry), meta, key, value),
{
    let (f, i) = choose|f: int, i: int| lies_at(files, meta, f, i);
    lemma_appended_lies_at(files, id, entry, meta, f, i);
    lemma_read_at(appended(files, id, entry), meta, f, i);
    let after = appended(files, id, entry);
    if files.len() > 0 && files.last().id == id && f == files.len() - 1 {
    } else {
        assert(after[f] == files[f]);
    }
}

/// The store keeps track of the log through a `remove`: once the `Remove`
/// record is appended to the active file, the directory is what a replay
/// of the files gives, and `key` is gone.
pub proof fn remove_keeps_track(
    s: StoreView,
    files: Seq<LogFile>,
    m: Map<Seq<char>, Seq<char>>,
    timestamp: i64,
    key: Seq<char>,
    len: u64,
)
    requires
        tracks(s, files, m),
        s.has_room(len),
        len >= 1,
    ensures
        tracks(
            s.after_remove(key, len),
            appended(files, s.active_id, LogEntry { record: Record::Remove { timestamp, key }, len }),
            m.remove(key),
        ),
{
    let entry = LogEntry { record: Record::Remove { timestamp, key }, len };
    let after = appended(files, s.active_id, entry);
    let s2 = s.after_remove(key, len);
    lemma_live_bytes_without(s.key_dir, key);
    lemma_appended_wf(files, s.active_id, entry);
    lemma_replay_appended(StoreView::initial(file_ids(files)), files, s.active_id, entry);
    lemma_replay_files_dir(StoreView::initial(file_ids(after)), StoreView::initial(file_ids(files)), after);
    assert forall|k: Seq<char>| #[trigger] m.remove(key).contains_key(k) implies holds(
        after,
        s2.key_dir[k],
        k,
        m.remove(key)[k],
    ) by {
        assert(m.contains_key(k));
        lemma_holds_after_append(files, s.active_id, entry, s.key_dir[k], k, m[k]);
    }
    assert(s2.key_dir.dom() =~= m.remove(key).dom());
}

/// The records of the compaction file: for each listed key, a copy of the
/// record that the directory points at.
pub open spec fn compacted_entries(s: StoreView, files: Seq<LogFile>, keys: Seq<Seq<char>>) -> Seq<LogEntry> {
    Seq::new(
        keys.len(),
        |i: int| LogEntry { record: read(files, s.key_dir[keys[i]]).unwrap(), len: s.key_dir[keys[i]].size },
    )
}

/// The files after a compaction is carried out: the compaction file alone,
/// every older file being deleted.
pub open spec fn compacted_files(s: StoreView, files: Seq<LogFile>, compaction: Compaction) -> Seq<LogFile> {
    seq![
        LogFile {
            id: compaction.compaction_id,
            entries: compacted_entries(s, files, compaction.keys()),
        },
    ]
}

/// Replaying the first `n` records of a compaction file points the first
/// `n` keys at the copies, which lie one after the other.
proof fn lemma_replay_compacted(
    pre: StoreView,
    files: Seq<LogFile>,
    m: Map<Seq<char>, Seq<char>>,
    keys: Seq<Seq<char>>,
    id: u64,
    n: int,
)
    requires
        0 <= n <= keys.len(),
        keys.no_duplicates(),
        pre.key_dir.dom().finite(),
        live_bytes(pre.key_dir) <= u64::MAX,
        listed_hold(pre, files, m, keys),
    ensures
        file_len(compacted_entries(pre, files, keys).take(n)) == listed_bytes(pre.key_dir, keys, n),
        listed_bytes(pre.key_dir, keys, n) <= u64::MAX,
        replay_entries(
            StoreView::initial(Seq::empty()),
            id,
            compacted_entries(pre, files, keys).take(n),
        ).key_dir.dom() =~= keys.take(n).to_set(),
        forall|j: int|
            0 <= j < n ==> (#[trigger] replay_entries(
                StoreView::initial(Seq::empty()),
                id,
                compacted_entries(pre, files, keys).take(n),
            ).key_dir[keys[j]]) == (CommandMeta {
                file_id: id,
                position: listed_bytes(pre.key_dir, keys, j) as u64,
                size: pre.key_dir[keys[j]].size,
            }),
    decreases n,
{
    let s0 = StoreView::initial(Seq::empty());
    let entries = compacted_entries(pre, files, keys);
    lemma_listed_bytes(pre.key_dir, keys, n);
    if n == 0 {
        assert(entries.take(0).len() == 0);
        assert(keys.take(0).to_set() =~= Set::empty());
    } else {
        lemma_replay_compacted(pre, files, m, keys, id, n - 1);
        let head = entries.take(n - 1);
        assert(entries.take(n).drop_last() == head);
        assert(entries.take(n).last() == entries[n - 1]);
        let key = keys[n - 1];
        assert(holds(files, pre.key_dir[key], key, m[key]));
        let before = replay_entries(s0, id, head);
        let after = replay_entries(s0, id, entries.take(n));
        assert(entries[n - 1].record matches Record::Put { key: k, .. } && k == key);
        assert(after.key_dir == before.key_dir.insert(
            key,
            CommandMeta {
                file_id: id,
                position: listed_bytes(pre.key_dir, keys, n - 1) as u64,
                size: pre.key_dir[key].size,
            },
        ));
        assert(after.key_dir.dom() =~= keys.take(n).to_set()) by {
            assert forall|k: Seq<char>| keys.take(n).to_set().contains(k) implies after.key_dir.dom().contains(
                k,
            ) by {
                let listed = keys.take(n);
                assert(listed.contains(k));
                let j = choose|j: int| 0 <= j < listed.len() && listed[j] == k;
                if j < n - 1 {
                    assert(keys.take(n - 1)[j] == k);
                    assert(keys.take(n - 1).to_set().contains(k));
                }
            }
            assert forall|k: Seq<char>| after.key_dir.dom().contains(k) implies keys.take(n).to_set().contains(
                k,
            ) by {
                if k == key {
                    assert(keys.take(n)[n - 1] == k);
                } else {
                    let listed = keys.take(n - 1);
                    assert(listed.to_set().contains(k));
                    assert(listed.contains(k));
                    let j = choose|j: int| 0 <= j < listed.len() && listed[j] == k;
                    assert(keys.take(n)[j] == k);
                }
            }
        }
        assert forall|j: int| 0 <= j < n implies (#[trigger] after.key_dir[keys[j]]) == (CommandMeta {
            file_id: id,
            position: listed_bytes(pre.key_dir, keys, j) as u64,
            size: pre.key_dir[keys[j]].size,
        }) by {
            if j < n - 1 {
                assert(keys[j] != keys[n - 1]);
                assert(before.key_dir[keys[j]] == (CommandMeta {
                    file_id: id,
                    position: listed_bytes(pre.key_dir, keys, j) as u64,
                    size: pre.key_dir[keys[j]].size,
                }));
            }
        }
    }
}

/// Whether every listed key is live in `s` and points at a `Put` record of
/// the key with the key's value.
pub open spec fn listed_hold(s: StoreView, files: Seq<LogFile>, m: Map<Seq<char>, Seq<char>>, keys: Seq<Seq<char>>) -> bool {
    forall|j: int|
        0 <= j < keys.len() ==> s.key_dir.contains_key(#[trigger] keys[j]) && holds(
            files,
            s.key_dir[keys[j]],
            keys[j],
            m[keys[j]],
        )
}

/// In a tracked store, every key that a compaction moves is live and
/// points at its record.
proof fn lemma_compaction_keys(
    s: StoreView,
    files: Seq<LogFile>,
    m: Map<Seq<char>, Seq<char>>,
    compaction: Compaction,
    post: StoreView,
)
    requires
        tracks(s, files, m),
        compaction.carries(s, post),
    ensures
        listed_hold(s, files, m, compaction.keys()),
        forall|j: int|
            0 <= j < compaction.keys().len() ==> post.key_dir.contains_key(#[trigger] compaction.keys()[j]),
        forall|j: int|
            0 <= j < compaction.keys().len() ==> (#[trigger] post.key_dir[compaction.keys()[j]]) == (
            CommandMeta {
                file_id: compaction.compaction_id,
                position: listed_bytes(s.key_dir, compaction.keys(), j) as u64,
                size: s.key_dir[compaction.keys()[j]].size,
            }),
{
    let keys = compaction.keys();
    assert forall|j: int| 0 <= j < keys.len() implies s.key_dir.contains_key(#[trigger] keys[j]) && holds(
        files,
        s.key_dir[keys[j]],
        keys[j],
        m[keys[j]],
    ) by {
        assert(keys.to_set().contains(keys[j]));
        assert(m.contains_key(keys[j]));
    }
    assert forall|j: int| 0 <= j < keys.len() implies post.key_dir.contains_key(#[trigger] keys[j]) by {
        assert(keys.to_set().contains(keys[j]));
    }
    assert forall|j: int| 0 <= j < keys.len() implies (#[trigger] post.key_dir[keys[j]]) == (CommandMeta {
        file_id: compaction.compaction_id,
        position: listed_bytes(s.key_dir, keys, j) as u64,
        size: s.key_dir[keys[j]].size,
    }) by {
        assert(relocated(s.key_dir, post.key_dir, compaction.compaction_id, compaction.moves@, j));
    }
}

/// A compaction keeps the live bytes, and the compaction file is as long.
proof fn lemma_compaction_bytes(
    s: StoreView,
    files: Seq<LogFile>,
    m: Map<Seq<char>, Seq<char>>,
    compaction: Compaction,
    post: StoreView,
)
    requires
        tracks(s, files, m),
        compaction.carries(s, post),
    ensures
        live_bytes(post.key_dir) == live_bytes(s.key_dir),
        file_len(compacted_entries(s, files, compaction.keys())) == live_bytes(s.key_dir),
        disk_bytes(compacted_files(s, files, compaction)) == live_bytes(s.key_dir),
{
    let keys = compaction.keys();
    let n = keys.len() as int;
    let entries = compacted_entries(s, files, keys);
    let after = compacted_files(s, files, compaction);
    lemma_compaction_keys(s, files, m, compaction, post);
    lemma_replay_compacted(s, files, m, keys, compaction.compaction_id, n);
    assert(entries.take(n) == entries);
    assert(keys.take(n) == keys);
    lemma_listed_bytes(s.key_dir, keys, n);
    lemma_same_sizes(s.key_dir, post.key_dir, compaction.compaction_id, compaction.moves@);
    assert(after.drop_last().len() == 0);
    assert(disk_bytes(after.drop_last()) == 0);
    assert(after.last().entries == entries);
}

/// The compaction file alone is a data directory in order.
proof fn lemma_compaction_files_wf(
    s: StoreView,
    files: Seq<LogFile>,
    m: Map<Seq<char>, Seq<char>>,
    compaction: Compaction,
    post: StoreView,
)
    requires
        tracks(s, files, m),
        compaction.carries(s, post),
    ensures
        files_wf(compacted_files(s, files, compaction)),
{
    let keys = compaction.keys();
    let after = compacted_files(s, files, compaction);
    lemma_compaction_keys(s, files, m, compaction, post);
    lemma_compaction_bytes(s, files, m, compaction, post);
    assert forall|f: int, i: int| 0 <= f < after.len() && 0 <= i < after[f].entries.len() implies (
    #[trigger] after[f].entries[i]).len >= 1 by {
        assert(holds(files, s.key_dir[keys[i]], keys[i], m[keys[i]]));
        let (g, j) = choose|g: int, j: int| lies_at(files, s.key_dir[keys[i]], g, j);
        assert(files[g].entries[j].len >= 1);
    }
    assert forall|f: int| 0 <= f < after.len() implies file_len((#[trigger] after[f]).entries)
        <= u64::MAX by {
        assert(after[f].entries == compacted_entries(s, files, keys));
    }
}

/// After a compaction, a replay of the compaction file gives the
/// directory.
proof fn lemma_compaction_replay(
    s: StoreView,
    files: Seq<LogFile>,
    m: Map<Seq<char>, Seq<char>>,
    compaction: Compaction,
    post: StoreView,
)
    requires
        tracks(s, files, m),
        compaction.carries(s, post),
    ensures
        recovered(compacted_files(s, files, compaction)).key_dir == post.key_dir,
{
    let keys = compaction.keys();
    let n = keys.len() as int;
    let id = compaction.compaction_id;
    let entries = compacted_entries(s, files, keys);
    let after = compacted_files(s, files, compaction);
    let s0 = StoreView::initial(file_ids(after));
    lemma_compaction_keys(s, files, m, compaction, post);
    lemma_replay_compacted(s, files, m, keys, id, n);
    lemma_replay_entries_dir(s0, StoreView::initial(Seq::empty()), id, entries);
    assert(entries.take(n) == entries);
    assert(keys.take(n) == keys);
    assert(after.drop_last().len() == 0);
    assert(replay_files(s0, after.drop_last()) == s0);
    assert(after.last().id == id && after.last().entries == entries);
    assert(replay_files(s0, after) == replay_entries(s0, id, entries));
    let replayed = replay_entries(s0, id, entries);
    assert(replayed.key_dir =~= post.key_dir) by {
        assert forall|k: Seq<char>| replayed.key_dir.contains_key(k) implies replayed.key_dir[k]
            == post.key_dir[k] by {
            assert(keys.to_set().contains(k));
            assert(keys.contains(k));
            let j = choose|j: int| 0 <= j < keys.len() && keys[j] == k;
            assert(replayed.key_dir[keys[j]] == post.key_dir[keys[j]]);
        }
    }
}

/// After a compaction, the directory points each key at the copy of its
/// record.
proof fn lemma_compaction_holds(
    s: StoreView,
    files: Seq<LogFile>,
    m: Map<Seq<char>, Seq<char>>,
    compaction: Compaction,
    post: StoreView,
    key: Seq<char>,
)
    requires
        tracks(s, files, m),
        compaction.carries(s, post),
        m.contains_key(key),
    ensures
        holds(compacted_files(s, files, compaction), post.key_dir[key], key, m[key]),
{
    let keys = compaction.keys();
    let id = compaction.compaction_id;
    let entries = compacted_entries(s, files, keys);
    let after = compacted_files(s, files, compaction);
    lemma_compaction_keys(s, files, m, compaction, post);
    lemma_compaction_files_wf(s, files, m, compaction, post);
    assert(keys.to_set().contains(key));
    assert(keys.contains(key));
    let j = choose|j: int| 0 <= j < keys.len() && keys[j] == key;
    lemma_replay_compacted(s, files, m, keys, id, j);
    assert(after[0].entries == entries);
    assert(post.key_dir[keys[j]] == (CommandMeta {
        file_id: id,
        position: listed_bytes(s.key_dir, keys, j) as u64,
        size: s.key_dir[keys[j]].size,
    }));
    assert(lies_at(after, post.key_dir[key], 0, j));
    lemma_read_at(after, post.key_dir[key], 0, j);
    assert(holds(files, s.key_dir[keys[j]], keys[j], m[keys[j]]));
}

/// The store keeps track of the log through a compaction: once the live
/// records are copied and the older files deleted, the directory is what a
/// replay of the compaction file gives, and every key has the value it
/// had. The live records take as many bytes as before, and the compaction
/// file is as long as they are: no record is copied twice.
pub proof fn compaction_keeps_track(
    s: StoreView,
    files: Seq<LogFile>,
    m: Map<Seq<char>, Seq<char>>,
    compaction: Compaction,
    post: StoreView,
)
    requires
        tracks(s, files, m),
        compaction.carries(s, post),
    ensures
        tracks(post, compacted_files(s, files, compaction), m),
        live_bytes(post.key_dir) == live_bytes(s.key_dir),
        disk_bytes(compacted_files(s, files, compaction)) == live_bytes(s.key_dir),
{
    let after = compacted_files(s, files, compaction);
    lemma_compaction_bytes(s, files, m, compaction, post);
    lemma_compaction_files_wf(s, files, m, compaction, post);
    lemma_compaction_replay(s, files, m, compaction, post);
    assert forall|key: Seq<char>| #[trigger] m.contains_key(key) implies holds(
        after,
        post.key_dir[key],
        key,
        m[key],
    ) by {
        lemma_compaction_holds(s, files, m, compaction, post, key);
    }
    assert(after.last().id == compaction.compaction_id);
}

/// Whether the records are copies of live records: each a `Put` record of
/// a key with the key's value.
pub open spec fn copies_of(entries: Seq<LogEntry>, m: Map<Seq<char>, Seq<char>>) -> bool {
    forall|i: int|
        0 <= i < entries.len() ==> (#[trigger] entries[i]).len >= 1 && (match entries[i].record {
            Record::Put { key, value, .. } => m.contains_key(key) && value == m[key],
            Record::Remove { .. } => false,
        })
}

/// A record that lay in the files lies there when one more file is added.
proof fn lemma_pushed_lies_at(files: Seq<LogFile>, file: LogFile, meta: CommandMeta, f: int, i: int)
    requires
        lies_at(files, meta, f, i),
    ensures
        lies_at(files.push(file), meta, f, i),
{
    assert(files.push(file)[f] == files[f]);
}

/// One more file after the active one leaves the files in order.
proof fn lemma_pushed_wf(files: Seq<LogFile>, file: LogFile, active_id: u64)
    requires
        files_wf(files),
        forall|f: int| 0 <= f < files.len() ==> (#[trigger] files[f]).id <= active_id,
        file.id > active_id,
        file_len(file.entries) <= u64::MAX,
        forall|i: int| 0 <= i < file.entries.len() ==> (#[trigger] file.entries[i]).len >= 1,
    ensures
        files_wf(files.push(file)),
        disk_bytes(files.push(file)) == disk_bytes(files) + file_len(file.entries),
{
    let after = files.push(file);
    assert(after.drop_last() == files);
    assert forall|f: int, g: int| 0 <= f < g < after.len() implies after[f].id < after[g].id by {
        if g < files.len() {
            assert(files[f].id < files[g].id);
        } else {
            assert(files[f].id <= active_id);
        }
    }
    assert forall|f: int| 0 <= f < after.len() implies file_len((#[trigger] after[f]).entries)
        <= u64::MAX by {
        if f < files.len() {
            assert(after[f] == files[f]);
        }
    }
    assert forall|f: int, i: int| 0 <= f < after.len() && 0 <= i < after[f].entries.len() implies (
    #[trigger] after[f].entries[i]).len >= 1 by {
        if f < files.len() {
            assert(after[f] == files[f]);
            assert(files[f].entries[i].len >= 1);
        }
    }
}

/// While the live records are copied into the compaction file, every key
/// reads as before: the store points at the old files, which are as they
/// were, whatever the compaction file holds by then.
pub proof fn copying_disturbs_no_read(
    s: StoreView,
    files: Seq<LogFile>,
    m: Map<Seq<char>, Seq<char>>,
    copy: LogFile,
    key: Seq<char>,
)
    requires
        tracks(s, files, m),
        copy.id > s.active_id,
        file_len(copy.entries) <= u64::MAX,
        forall|i: int| 0 <= i < copy.entries.len() ==> (#[trigger] copy.entries[i]).len >= 1,
    ensures
        get(s, files.push(copy), key) == get(s, files, key),
        get(s, files.push(copy), key) == Ok::<Option<Seq<char>>, ()>(m.get(key)),
{
    lemma_pushed_wf(files, copy, s.active_id);
    get_reads_contents(s, files, m, key);
    if m.contains_key(key) {
        let meta = s.key_dir[key];
        assert(holds(files, meta, key, m[key]));
        let (f, i) = choose|f: int, i: int| lies_at(files, meta, f, i);
        lemma_pushed_lies_at(files, copy, meta, f, i);
        lemma_read_at(files.push(copy), meta, f, i);
        assert(files.push(copy)[f] == files[f]);
    } else {
        assert(!s.key_dir.dom().contains(key));
    }
}

/// Replaying copies of live records leaves every key with its value: the
/// directory points the copied keys at the copies and the others where it
/// did.
proof fn lemma_replay_copies(
    base: StoreView,
    files: Seq<LogFile>,
    m: Map<Seq<char>, Seq<char>>,
    copy: LogFile,
    n: int,
)
    requires
        files_wf(files.push(copy)),
        copies_of(copy.entries, m),
        0 <= n <= copy.entries.len(),
        base.key_dir.dom() == m.dom(),
        forall|key: Seq<char>| #[trigger] m.contains_key(key) ==> holds(files, base.key_dir[key], key, m[key]),
    ensures
        replay_entries(base, copy.id, copy.entries.take(n)).key_dir.dom() == m.dom(),
        forall|key: Seq<char>| #[trigger]
            m.contains_key(key) ==> holds(
                files.push(copy),
                replay_entries(base, copy.id, copy.entries.take(n)).key_dir[key],
                key,
                m[key],
            ),
    decreases n,
{
    let after = files.push(copy);
    let last = files.len() as int;
    if n == 0 {
        assert(copy.entries.take(0).len() == 0);
        assert forall|key: Seq<char>| #[trigger] m.contains_key(key) implies holds(
            after,
            base.key_dir[key],
            key,
            m[key],
        ) by {
            let meta = base.key_dir[key];
            assert(holds(files, meta, key, m[key]));
            let (f, i) = choose|f: int, i: int| lies_at(files, meta, f, i);
            lemma_pushed_lies_at(files, copy, meta, f, i);
            lemma_read_at(after, meta, f, i);
            assert(after[f] == files[f]);
        }
    } else {
        lemma_replay_copies(base, files, m, copy, n - 1);
        let head = copy.entries.take(n - 1);
        let entry = copy.entries[n - 1];
        assert(copy.entries.take(n).drop_last() == head);
        assert(copy.entries.take(n).last() == entry);
        let before = replay_entries(base, copy.id, head);
        let now = replay_entries(base, copy.id, copy.entries.take(n));
        assert(after[last] == copy);
        assert(file_len(copy.entries) <= u64::MAX);
        assert forall|k: int| 0 <= k < copy.entries.len() implies (#[trigger] copy.entries[k]).len >= 1 by {
            assert(after[last].entries[k].len >= 1);
        }
        if n < copy.entries.len() {
            lemma_offsets_ascend(copy.entries, n - 1, copy.entries.len() as int);
            assert(copy.entries.take(copy.entries.len() as int) == copy.entries);
        } else {
            assert(copy.entries.take(n) == copy.entries);
            assert(file_len(copy.entries.take(n)) == file_len(head) + entry.len);
        }
        match entry.record {
            Record::Put { key: copied, value, .. } => {
                let meta = CommandMeta { file_id: copy.id, position: file_len(head) as u64, size: entry.len };
                assert(now.key_dir == before.key_dir.insert(copied, meta));
                assert(now.key_dir.dom() =~= m.dom());
                assert(lies_at(after, meta, last, n - 1));
                lemma_read_at(after, meta, last, n - 1);
            },
            Record::Remove { .. } => {},
        }
    }
}

/// A crash in the middle of a compaction loses nothing: if the store is
/// opened again while the compaction file holds copies of some of the live
/// records, and the old files are still there, every key reads as it did.
pub proof fn crash_while_copying_loses_nothing(
    s: StoreView,
    files: Seq<LogFile>,
    m: Map<Seq<char>, Seq<char>>,
    copy: LogFile,
)
    requires
        tracks(s, files, m),
        s.active_id < copy.id < u64::MAX,
        copies_of(copy.entries, m),
        disk_bytes(files) + file_len(copy.entries) <= u64::MAX,
    ensures
        tracks(recovered(files.push(copy)), files.push(copy), m),
{
    let after = files.push(copy);
    let s0 = StoreView::initial(file_ids(after));
    assert forall|i: int| 0 <= i < copy.entries.len() implies (#[trigger] copy.entries[i]).len >= 1 by {}
    lemma_pushed_wf(files, copy, s.active_id);
    super::accounting::lemma_live_bytes_empty();
    assert(s0.key_dir.dom() =~= Set::empty());
    lemma_replay_files_bytes(s0, after);
    assert(after.drop_last() == files);
    let base = replay_files(s0, files);
    lemma_replay_files_dir(s0, StoreView::initial(file_ids(files)), files);
    assert(base.key_dir == s.key_dir);
    lemma_replay_copies(base, files, m, copy, copy.entries.len() as int);
    assert(copy.entries.take(copy.entries.len() as int) == copy.entries);
    assert(recovered(after) == replay_entries(base, copy.id, copy.entries));
    assert forall|f: int| 0 <= f < after.len() implies (#[trigger] file_ids(after)[f]) <= copy.id by {
        if f < files.len() {
            assert(after[f] == files[f]);
            assert(files[f].id <= s.active_id);
        }
    }
    lemma_max_id_below(file_ids(after), copy.id);
    assert forall|f: int| 0 <= f < after.len() implies (#[trigger] after[f]).id <= recovered(after).active_id by {
        lemma_max_id(file_ids(after), f);
    }
    lemma_max_id(file_ids(after), after.len() - 1);
}

/// The greatest id is no greater than a bound on all of them.
proof fn lemma_max_id_below(ids: Seq<u64>, bound: u64)
    requires
        forall|i: int| 0 <= i < ids.len() ==> (#[trigger] ids[i]) <= bound,
    ensures
        max_id(ids) <= bound,
    decreases ids.len(),
{
    if ids.len() > 0 {
        assert forall|i: int| 0 <= i < ids.drop_last().len() implies (#[trigger] ids.drop_last()[i]) <= bound by {
            assert(ids.drop_last()[i] == ids[i]);
        }
        lemma_max_id_below(ids.drop_last(), bound);
        assert(ids.last() == ids[ids.len() - 1]);
    }
}

/// The index of the last record about `key` among the entries, or -1 if
/// there is none.
pub open spec fn last_about(entries: Seq<LogEntry>, key: Seq<char>) -> int
    decreases entries.len(),
{
    if entries.len() == 0 {
        -1
    } else if entries.last().record.key() == key {
        entries.len() - 1
    } else {
        last_about(entries.drop_last(), key)
    }
}

/// What the last record about `key` in the files does to it: `Some(true)`
/// if it is a `Put`, `Some(false)` if it is a `Remove`, and `None` if no
/// record is about the key.
pub open spec fn last_in_files(files: Seq<LogFile>, key: Seq<char>) -> Option<bool>
    decreases files.len(),
{
    if files.len() == 0 {
        None
    } else {
        let entries = files.last().entries;
        let at = last_about(entries, key);
        if at >= 0 {
            Some(entries[at].record is Put)
        } else {
            last_in_files(files.drop_last(), key)
        }
    }
}

/// The index of the last file that holds a record about `key`, or -1 if
/// no file does.
pub open spec fn last_file_about(files: Seq<LogFile>, key: Seq<char>) -> int
    decreases files.len(),
{
    if files.len() == 0 {
        -1
    } else if last_about(files.last().entries, key) >= 0 {
        files.len() - 1
    } else {
        last_file_about(files.drop_last(), key)
    }
}

/// The latest record about `key` in the files, in the order of the files
/// and of the records in each, if there is one.
pub open spec fn latest(files: Seq<LogFile>, key: Seq<char>) -> Option<Record> {
    let f = last_file_about(files, key);
    if f >= 0 {
        Some(files[f].entries[last_about(files[f].entries, key)].record)
    } else {
        None
    }
}

/// The last record about a key is about the key.
proof fn lemma_last_about(entries: Seq<LogEntry>, key: Seq<char>)
    ensures
        -1 <= last_about(entries, key) < entries.len(),
        last_about(entries, key) >= 0 ==> entries[last_about(entries, key)].record.key() == key,
    decreases entries.len(),
{
    if entries.len() > 0 && entries.last().record.key() != key {
        lemma_last_about(entries.drop_last(), key);
    }
}

/// After a replay a key is live if its last record is a `Put`, and if it
/// has no record, if it was live before.
proof fn lemma_replay_entries_last(base: StoreView, id: u64, entries: Seq<LogEntry>, key: Seq<char>)
    ensures
        replay_entries(base, id, entries).key_dir.contains_key(key) == (if last_about(entries, key) >= 0 {
            entries[last_about(entries, key)].record is Put
        } else {
            base.key_dir.contains_key(key)
        }),
        last_about(entries, key) >= 0 && entries[last_about(entries, key)].record is Put ==> replay_entries(
            base,
            id,
            entries,
        ).key_dir[key] == (CommandMeta {
            file_id: id,
            position: file_len(entries.take(last_about(entries, key))) as u64,
            size: entries[last_about(entries, key)].len,
        }),
    decreases entries.len(),
{
    if entries.len() > 0 {
        let head = entries.drop_last();
        lemma_replay_entries_last(base, id, head, key);
        lemma_last_about(head, key);
        if entries.last().record.key() == key {
            assert(entries.take(entries.len() - 1) == head);
        } else {
            let at = last_about(head, key);
            if at >= 0 {
                assert(entries.take(at) == head.take(at));
            }
        }
    }
}

/// After a replay of files a key is live if its last record is a `Put`,
/// and if it has no record, if it was live before.
proof fn lemma_replay_files_last(base: StoreView, files: Seq<LogFile>, key: Seq<char>)
    ensures
        replay_files(base, files).key_dir.contains_key(key) == (match last_in_files(files, key) {
            Some(put) => put,
            None => base.key_dir.contains_key(key),
        }),
    decreases files.len(),
{
    if files.len() > 0 {
        lemma_replay_files_last(base, files.drop_last(), key);
        lemma_replay_entries_last(
            replay_files(base, files.drop_last()),
            files.last().id,
            files.last().entries,
            key,
        );
    }
}

/// The last file about a key is one of the files.
proof fn lemma_last_file_about(files: Seq<LogFile>, key: Seq<char>)
    ensures
        -1 <= last_file_about(files, key) < files.len(),
        last_file_about(files, key) >= 0 ==> last_about(files[last_file_about(files, key)].entries, key)
            >= 0,
    decreases files.len(),
{
    if files.len() > 0 && last_about(files.last().entries, key) < 0 {
        lemma_last_file_about(files.drop_last(), key);
    }
}

/// After a replay of files a key points at its latest record, if that is
/// a `Put`; it is not live if that is a `Remove`; and it is as it was if
/// the files hold no record about it.
proof fn lemma_replay_files_latest(base: StoreView, files: Seq<LogFile>, key: Seq<char>)
    ensures
        last_file_about(files, key) < 0 ==> replay_files(base, files).key_dir.contains_key(key)
            == base.key_dir.contains_key(key),
        last_file_about(files, key) >= 0 ==> ({
            let f = last_file_about(files, key);
            let at = last_about(files[f].entries, key);
            let entry = files[f].entries[at];
            &&& replay_files(base, files).key_dir.contains_key(key) == (entry.record is Put)
            &&& entry.record is Put ==> replay_files(base, files).key_dir[key] == (CommandMeta {
                file_id: files[f].id,
                position: file_len(files[f].entries.take(at)) as u64,
                size: entry.len,
            })
        }),
    decreases files.len(),
{
    if files.len() > 0 {
        let before = replay_files(base, files.drop_last());
        lemma_replay_files_latest(base, files.drop_last(), key);
        lemma_replay_entries_last(before, files.last().id, files.last().entries, key);
        lemma_last_file_about(files.drop_last(), key);
        if last_about(files.last().entries, key) < 0 {
            let f = last_file_about(files.drop_last(), key);
            if f >= 0 {
                assert(files.drop_last()[f] == files[f]);
                // The record is a `Put` or not; a file without a record about the key keeps both.
                lemma_replay_entries_keep(before, files.last().id, files.last().entries, key);
            }
        }
    }
}

/// A replay of records that are not about a key leaves the key as it is.
proof fn lemma_replay_entries_keep(base: StoreView, id: u64, entries: Seq<LogEntry>, key: Seq<char>)
    requires
        last_about(entries, key) < 0,
    ensures
        replay_entries(base, id, entries).key_dir.contains_key(key) == base.key_dir.contains_key(key),
        replay_entries(base, id, entries).key_dir[key] == base.key_dir[key],
    decreases entries.len(),
{
    if entries.len() > 0 {
        lemma_replay_entries_keep(base, id, entries.drop_last(), key);
    }
}

/// The latest record is authoritative: when any well-formed files are
/// replayed, a key whose latest record is a `Put` is live and points at
/// that record, so that it reads the record's value; and a key whose latest
/// record is a `Remove`, or that has no record, is not live.
pub proof fn recovery_follows_latest_records(files: Seq<LogFile>, key: Seq<char>)
    requires
        files_wf(files),
    ensures
        match latest(files, key) {
            Some(Record::Put { value, .. }) => {
                &&& recovered(files).key_dir.contains_key(key)
                &&& lies_at(
                    files,
                    recovered(files).key_dir[key],
                    last_file_about(files, key),
                    last_about(files[last_file_about(files, key)].entries, key),
                )
                &&& get(recovered(files), files, key) == Ok::<Option<Seq<char>>, ()>(Some(value))
            },
            _ => {
                &&& !recovered(files).key_dir.contains_key(key)
                &&& get(recovered(files), files, key) == Ok::<Option<Seq<char>>, ()>(None)
            },
        },
{
    let s0 = StoreView::initial(file_ids(files));
    lemma_replay_files_latest(s0, files, key);
    lemma_last_file_about(files, key);
    let f = last_file_about(files, key);
    if f >= 0 {
        let entries = files[f].entries;
        lemma_last_about(entries, key);
        let at = last_about(entries, key);
        if entries[at].record is Put {
            let meta = recovered(files).key_dir[key];
            assert forall|k: int| 0 <= k < entries.len() implies (#[trigger] entries[k]).len >= 1 by {
                assert(files[f].entries[k].len >= 1);
            }
            lemma_offsets_ascend(entries, at, entries.len() as int);
            assert(entries.take(entries.len() as int) == entries);
            assert(file_len(entries) <= u64::MAX);
            assert(lies_at(files, meta, f, at));
            lemma_read_at(files, meta, f, at);
        }
    }
}

/// What the later files say last about a key is what all the files say
/// last about it.
proof fn lemma_last_in_later_files(files: Seq<LogFile>, k: int, key: Seq<char>)
    requires
        0 <= k <= files.len(),
        last_in_files(files.skip(k), key) is Some,
    ensures
        last_in_files(files, key) == last_in_files(files.skip(k), key),
    decreases files.len(),
{
    if k < files.len() {
        let later = files.skip(k);
        assert(later.last() == files.last());
        assert(later.drop_last() == files.drop_last().skip(k));
        if last_about(files.last().entries, key) < 0 {
            lemma_last_in_later_files(files.drop_last(), k, key);
        }
    } else {
        assert(files.skip(k).len() == 0);
    }
}

/// Copies of live records say nothing about a key that is not live.
proof fn lemma_copies_are_of_live_keys(entries: Seq<LogEntry>, m: Map<Seq<char>, Seq<char>>, key: Seq<char>)
    requires
        copies_of(entries, m),
    ensures
        last_about(entries, key) >= 0 ==> m.contains_key(key) && entries[last_about(entries, key)].record
            == (Record::Put {
            timestamp: entries[last_about(entries, key)].record->Put_timestamp,
            key,
            value: m[key],
        }),
{
    lemma_last_about(entries, key);
    let at = last_about(entries, key);
    if at >= 0 {
        assert(entries[at].len >= 1);
    }
}

/// The later files of a data directory are a data directory in order.
proof fn lemma_later_files_wf(files: Seq<LogFile>, k: int)
    requires
        files_wf(files),
        0 <= k <= files.len(),
    ensures
        files_wf(files.skip(k)),
{
    let later = files.skip(k);
    assert forall|f: int, g: int| 0 <= f < g < later.len() implies later[f].id < later[g].id by {
        assert(files[f + k].id < files[g + k].id);
    }
    assert forall|f: int| 0 <= f < later.len() implies file_len((#[trigger] later[f]).entries)
        <= u64::MAX by {
        assert(later[f] == files[f + k]);
    }
    assert forall|f: int, i: int| 0 <= f < later.len() && 0 <= i < later[f].entries.len() implies (
    #[trigger] later[f].entries[i]).len >= 1 by {
        assert(later[f] == files[f + k]);
        assert(files[f + k].entries[i].len >= 1);
    }
}

/// A crash while the files that a compaction has replaced are deleted
/// loses nothing and brings nothing back, as long as they are deleted
/// oldest first: if the store is opened when the first `k` files are gone
/// and the compaction file, which holds a copy of every live record, is
/// there, every key reads as it did.
pub proof fn crash_while_deleting_loses_nothing(
    s: StoreView,
    files: Seq<LogFile>,
    m: Map<Seq<char>, Seq<char>>,
    copy: LogFile,
    k: int,
    key: Seq<char>,
)
    requires
        tracks(s, files, m),
        0 <= k <= files.len(),
        s.active_id < copy.id,
        file_len(copy.entries) <= u64::MAX,
        copies_of(copy.entries, m),
        forall|live: Seq<char>| #[trigger] m.contains_key(live) ==> last_about(copy.entries, live) >= 0,
    ensures
        get(recovered(files.skip(k).push(copy)), files.skip(k).push(copy), key) == Ok::<
            Option<Seq<char>>,
            (),
        >(m.get(key)),
{
    let later = files.skip(k);
    let left = later.push(copy);
    let s0 = StoreView::initial(file_ids(left));
    let base = replay_files(s0, later);
    assert(left.drop_last() == later);
    assert(recovered(left) == replay_entries(base, copy.id, copy.entries));
    lemma_later_files_wf(files, k);
    assert forall|f: int| 0 <= f < later.len() implies (#[trigger] later[f]).id <= s.active_id by {
        assert(later[f] == files[f + k]);
    }
    assert forall|i: int| 0 <= i < copy.entries.len() implies (#[trigger] copy.entries[i]).len >= 1 by {}
    lemma_pushed_wf(later, copy, s.active_id);
    lemma_replay_entries_last(base, copy.id, copy.entries, key);
    lemma_copies_are_of_live_keys(copy.entries, m, key);
    lemma_last_about(copy.entries, key);
    let at = last_about(copy.entries, key);
    if m.contains_key(key) {
        let meta = recovered(left).key_dir[key];
        assert(copy.entries.take(at + 1).drop_last() == copy.entries.take(at));
        if at + 1 < copy.entries.len() {
            lemma_offsets_ascend(copy.entries, at, copy.entries.len() as int);
        }
        assert(copy.entries.take(copy.entries.len() as int) == copy.entries);
        assert(file_len(copy.entries.take(at)) <= file_len(copy.entries)) by {
            if at + 1 == copy.entries.len() {
                assert(copy.entries.take(at) == copy.entries.drop_last());
            }
        }
        assert(left[later.len() as int] == copy);
        assert(lies_at(left, meta, later.len() as int, at));
        lemma_read_at(left, meta, later.len() as int, at);
    } else {
        // The key was not live: its last record in all the files, if it has one, removes it.
        lemma_replay_files_last(StoreView::initial(file_ids(files)), files, key);
        assert(!recovered(files).key_dir.dom().contains(key));
        lemma_replay_files_last(s0, later, key);
        if last_in_files(later, key) is Some {
            lemma_last_in_later_files(files, k, key);
        }
    }
}

/// A replay counts every byte it passes, as live or as reclaimable.
proof fn lemma_replay_entries_bytes(s: StoreView, id: u64, entries: Seq<LogEntry>)
    requires
        s.key_dir.dom().finite(),
        s.total_bytes() + file_len(entries) <= u64::MAX,
    ensures
        replay_entries(s, id, entries).key_dir.dom().finite(),
        replay_entries(s, id, entries).total_bytes() == s.total_bytes() + file_len(entries),
        replay_entries(s, id, entries).active_id == s.active_id,
        replay_entries(s, id, entries).active_pos == s.active_pos,
        replay_entries(s, id, entries).compacted_id == s.compacted_id,
    decreases entries.len(),
{
    if entries.len() > 0 {
        lemma_replay_entries_bytes(s, id, entries.drop_last());
        let before = replay_entries(s, id, entries.drop_last());
        let start = file_len(entries.drop_last()) as u64;
        let len = entries.last().len;
        match entries.last().record {
            Record::Put { key, .. } => {
                lemma_live_bytes_insert(
                    before.key_dir,
                    key,
                    CommandMeta { file_id: id, position: start, size: len },
                );
            },
            Record::Remove { key, .. } => {
                lemma_live_bytes_without(before.key_dir, key);
            },
        }
    }
}

/// A replay counts every byte it passes, as live or as reclaimable.
proof fn lemma_replay_files_bytes(s: StoreView, files: Seq<LogFile>)
    requires
        s.key_dir.dom().finite(),
        s.total_bytes() + disk_bytes(files) <= u64::MAX,
    ensures
        replay_files(s, files).key_dir.dom().finite(),
        replay_files(s, files).total_bytes() == s.total_bytes() + disk_bytes(files),
        replay_files(s, files).active_id == s.active_id,
        replay_files(s, files).active_pos == s.active_pos,
        replay_files(s, files).compacted_id == s.compacted_id,
    decreases files.len(),
{
    if files.len() > 0 {
        lemma_replay_files_bytes(s, files.drop_last());
        lemma_replay_entries_bytes(replay_files(s, files.drop_last()), files.last().id, files.last().entries);
    }
}

/// No id is greater than the greatest.
proof fn lemma_max_id(ids: Seq<u64>, i: int)
    requires
        0 <= i < ids.len(),
    ensures
        ids[i] <= max_id(ids),
    decreases ids.len(),
{
    if i < ids.len() - 1 {
        lemma_max_id(ids.drop_last(), i);
    }
}

/// An empty data directory is tracked by the store that `open` makes of
/// it, and holds nothing.
pub proof fn fresh_store_keeps_track()
    ensures
        tracks(StoreView::initial(Seq::empty()), Seq::empty(), Map::empty()),
{
    let files = Seq::<LogFile>::empty();
    super::accounting::lemma_live_bytes_empty();
    assert(file_ids(files) =~= Seq::empty());
    assert(StoreView::initial(Seq::empty()).key_dir.dom() =~= Map::<Seq<char>, Seq<char>>::empty().dom());
}

/// Recovery equals live state: closing the store and opening it again
/// gives a store with the same directory, which tracks the same contents,
/// so that every key reads as it did.
pub proof fn recovery_keeps_track(s: StoreView, files: Seq<LogFile>, m: Map<Seq<char>, Seq<char>>)
    requires
        tracks(s, files, m),
        max_id(file_ids(files)) < u64::MAX,
    ensures
        recovered(files).key_dir == s.key_dir,
        tracks(recovered(files), files, m),
        forall|key: Seq<char>| get(recovered(files), files, key) == get(s, files, key),
{
    let s0 = StoreView::initial(file_ids(files));
    super::accounting::lemma_live_bytes_empty();
    assert(s0.key_dir.dom() =~= Set::empty());
    lemma_replay_files_bytes(s0, files);
    assert forall|f: int| 0 <= f < files.len() implies (#[trigger] files[f]).id <= recovered(files).active_id by {
        lemma_max_id(file_ids(files), f);
    }
    if files.len() > 0 {
        lemma_max_id(file_ids(files), files.len() - 1);
    }
}

/// Reading a key through the store gives the key's value, and nothing for
/// a key that has none.
pub proof fn get_reads_contents(s: StoreView, files: Seq<LogFile>, m: Map<Seq<char>, Seq<char>>, key: Seq<char>)
    requires
        tracks(s, files, m),
    ensures
        get(s, files, key) == Ok::<Option<Seq<char>>, ()>(m.get(key)),
{
    if m.contains_key(key) {
        assert(holds(files, s.key_dir[key], key, m[key]));
    } else {
        assert(!s.key_dir.dom().contains(key));
    }
}

/// The records that the bytes of a log file hold from `pos` on, as far as
/// a replay takes them in.
pub open spec fn entries_in(bytes: Seq<u8>, pos: int) -> Seq<LogEntry>
    decreases bytes.len() - pos,
{
    match json_prefix(bytes.subrange(pos, bytes.len() as int)) {
        Prefix::Value(json, n) => if 0 < n && pos + n <= bytes.len() {
            match record_of(json) {
                Ok(record) => seq![LogEntry { record, len: n as u64 }] + entries_in(bytes, pos + n),
                Err(_) => Seq::empty(),
            }
        } else {
            Seq::empty()
        },
        _ => Seq::empty(),
    }
}

/// Replaying the rest of a file's bytes after the records `done`, which
/// take the bytes up to `pos`, is replaying `done` and the records of the
/// rest.
proof fn lemma_replay_rest(s: StoreView, id: u64, bytes: Seq<u8>, done: Seq<LogEntry>, pos: int)
    requires
        0 <= pos <= bytes.len() <= u64::MAX,
        file_len(done) == pos,
    ensures
        replay_bytes(replay_entries(s, id, done), id, bytes, pos).0 == replay_entries(
            s,
            id,
            done + entries_in(bytes, pos),
        ),
    decreases bytes.len() - pos,
{
    let rest = entries_in(bytes, pos);
    match json_prefix(bytes.subrange(pos, bytes.len() as int)) {
        Prefix::Value(json, n) => {
            if 0 < n && pos + n <= bytes.len() {
                match record_of(json) {
                    Ok(record) => {
                        let entry = LogEntry { record, len: n as u64 };
                        let more = done.push(entry);
                        assert(more.drop_last() == done);
                        lemma_replay_rest(s, id, bytes, more, pos + n);
                        assert(done + rest == more + entries_in(bytes, pos + n));
                    },
                    Err(_) => {
                        assert(done + rest == done);
                    },
                }
            } else {
                assert(done + rest == done);
            }
        },
        _ => {
            assert(done + rest == done);
        },
    }
}

/// What `replay_file` makes of the bytes of a log file is the replay of
/// the records that the bytes hold.
pub proof fn replay_of_bytes_is_replay_of_records(s: StoreView, id: u64, bytes: Seq<u8>)
    requires
        bytes.len() <= u64::MAX,
    ensures
        replay_bytes(s, id, bytes, 0).0 == replay_entries(s, id, entries_in(bytes, 0)),
{
    lemma_replay_rest(s, id, bytes, Seq::empty(), 0);
    assert(Seq::<LogEntry>::empty() + entries_in(bytes, 0) == entries_in(bytes, 0));
}

/// One thing that happens to a store and its files.
pub enum Event {
    /// `set`: a `Put` record of `len` bytes is appended and taken in.
    Put { timestamp: i64, key: Seq<char>, value: Seq<char>, len: u64 },
    /// `remove`: a `Remove` record of `len` bytes is appended and taken
    /// in. For a key that is not live nothing happens.
    Remove { timestamp: i64, key: Seq<char>, len: u64 },
    /// A compaction leaves the store `post` and is carried out.
    Compact { compaction: Compaction, post: StoreView },
    /// The store is closed, and opened again from its files.
    Reopen,
}

/// The store and its files after one more event, or `None` if the event
/// cannot happen to them.
pub open spec fn after_event(s: StoreView, files: Seq<LogFile>, event: Event) -> Option<(StoreView, Seq<LogFile>)> {
    match event {
        Event::Put { timestamp, key, value, len } => if s.has_room(len) && len >= 1 {
            Some(
                (
                    s.after_set(key, len),
                    appended(files, s.active_id, LogEntry { record: Record::Put { timestamp, key, value }, len }),
                ),
            )
        } else {
            None
        },
        Event::Remove { timestamp, key, len } => if !s.key_dir.contains_key(key) {
            Some((s, files))
        } else if s.has_room(len) && len >= 1 {
            Some(
                (
                    s.after_remove(key, len),
                    appended(files, s.active_id, LogEntry { record: Record::Remove { timestamp, key }, len }),
                ),
            )
        } else {
            None
        },
        Event::Compact { compaction, post } => if compaction.carries(s, post) {
            Some((post, compacted_files(s, files, compaction)))
        } else {
            None
        },
        Event::Reopen => if max_id(file_ids(files)) < u64::MAX {
            Some((recovered(files), files))
        } else {
            None
        },
    }
}

/// The store and its files after the events, which start on an empty data
/// directory, or `None` if they cannot happen.
pub open spec fn after_events(events: Seq<Event>) -> Option<(StoreView, Seq<LogFile>)>
    decreases events.len(),
{
    if events.len() == 0 {
        Some((StoreView::initial(Seq::empty()), Seq::empty()))
    } else {
        match after_events(events.drop_last()) {
            Some((s, files)) => after_event(s, files, events.last()),
            None => None,
        }
    }
}

/// What the keys are worth after the events: each key has the value of the
/// last `set` of it that no `remove` of it followed.
pub open spec fn contents_after(events: Seq<Event>) -> Map<Seq<char>, Seq<char>>
    decreases events.len(),
{
    if events.len() == 0 {
        Map::empty()
    } else {
        let before = contents_after(events.drop_last());
        match events.last() {
            Event::Put { key, value, .. } => before.insert(key, value),
            Event::Remove { key, .. } => before.remove(key),
            _ => before,
        }
    }
}

/// Whatever happens to a store, it tracks the contents that the sets and
/// removes make: through compactions and restarts, the directory is what a
/// replay of the files gives, and it points each key at the value of the
/// key's last `set` that no `remove` followed.
pub proof fn events_keep_track(events: Seq<Event>)
    requires
        after_events(events) is Some,
    ensures
        tracks(after_events(events).unwrap().0, after_events(events).unwrap().1, contents_after(events)),
    decreases events.len(),
{
    if events.len() == 0 {
        fresh_store_keeps_track();
    } else {
        let (s, files) = after_events(events.drop_last()).unwrap();
        let m = contents_after(events.drop_last());
        events_keep_track(events.drop_last());
        match events.last() {
            Event::Put { timestamp, key, value, len } => {
                set_keeps_track(s, files, m, timestamp, key, value, len);
            },
            Event::Remove { timestamp, key, len } => {
                if s.key_dir.contains_key(key) {
                    remove_keeps_track(s, files, m, timestamp, key, len);
                } else {
                    assert(m.remove(key) == m);
                }
            },
            Event::Compact { compaction, post } => {
                compaction_keeps_track(s, files, m, compaction, post);
            },
            Event::Reopen => {
                recovery_keeps_track(s, files, m);
            },
        }
    }
}

/// After any events and a restart, `get` returns for each key the value of
/// the key's last `set` that no `remove` followed, and nothing for a key
/// that has none; and it returned the same before the restart.
pub proof fn reopened_store_reads_last_values(events: Seq<Event>, key: Seq<char>)
    requires
        after_events(events) is Some,
        max_id(file_ids(after_events(events).unwrap().1)) < u64::MAX,
    ensures
        get(recovered(after_events(events).unwrap().1), after_events(events).unwrap().1, key) == Ok::<
            Option<Seq<char>>,
            (),
        >(contents_after(events).get(key)),
        get(after_events(events).unwrap().0, after_events(events).unwrap().1, key) == Ok::<Option<Seq<char>>, ()>(
            contents_after(events).get(key),
        ),
{
    let (s, files) = after_events(events).unwrap();
    events_keep_track(events);
    recovery_keeps_track(s, files, contents_after(events));
    get_reads_contents(s, files, contents_after(events), key);
    get_reads_contents(recovered(files), files, contents_after(events), key);
}

/// A key reads as it was set: right after `set(key, value)`, `get(key)`
/// returns the value.
pub proof fn get_after_set(
    s: StoreView,
    files: Seq<LogFile>,
    m: Map<Seq<char>, Seq<char>>,
    timestamp: i64,
    key: Seq<char>,
    value: Seq<char>,
    len: u64,
)
    requires
        tracks(s, files, m),
        s.has_room(len),
        len >= 1,
    ensures
        get(
            s.after_set(key, len),
            appended(files, s.active_id, LogEntry { record: Record::Put { timestamp, key, value }, len }),
            key,
        ) == Ok::<Option<Seq<char>>, ()>(Some(value)),
{
    set_keeps_track(s, files, m, timestamp, key, value, len);
    get_reads_contents(
        s.after_set(key, len),
        appended(files, s.active_id, LogEntry { record: Record::Put { timestamp, key, value }, len }),
        m.insert(key, value),
        key,
    );
}

/// A removed key is gone: right after `remove(key)`, `get(key)` returns
/// nothing, and the key is not live, so that a second `remove` is refused.
pub proof fn get_after_remove(
    s: StoreView,
    files: Seq<LogFile>,
    m: Map<Seq<char>, Seq<char>>,
    timestamp: i64,
    key: Seq<char>,
    len: u64,
)
    requires
        tracks(s, files, m),
        s.has_room(len),
        len >= 1,
    ensures
        get(
            s.after_remove(key, len),
            appended(files, s.active_id, LogEntry { record: Record::Remove { timestamp, key }, len }),
            key,
        ) == Ok::<Option<Seq<char>>, ()>(None),
        !s.after_remove(key, len).key_dir.contains_key(key),
{
    remove_keeps_track(s, files, m, timestamp, key, len);
    get_reads_contents(
        s.after_remove(key, len),
        appended(files, s.active_id, LogEntry { record: Record::Remove { timestamp, key }, len }),
        m.remove(key),
        key,
    );
}

} // verus!
