//! The engine's state: the key directory, the active log file and the count
//! of bytes that a compaction would reclaim.
//!
//! The store performs no I/O. Whoever owns the files does the work on them
//! first and tells the store afterwards, so that the directory never points
//! at bytes that are not there:
//!
//! - a record is appended to the active file and flushed, and then `set` or
//!   `remove` takes it in;
//! - when the reclaimable bytes reach the threshold, the store starts a
//!   compaction: it plans where each live record goes. The records are
//!   copied, and then `finish_compaction` turns the directory over to the
//!   copies. Until then every key reads from its old place; from then on the
//!   old files can be deleted.

use super::accounting::{
    lemma_listed_bytes, lemma_listed_bytes_same, lemma_live_bytes_empty, lemma_live_bytes_insert,
    lemma_live_bytes_remove, lemma_live_bytes_without, listed_bytes, live_bytes, size_of, Directory,
};
use super::command::{record_of, Command, CommandMeta, Record, Refusal};
use super::key_dir::{key_views, KeyDir};
use super::stable_log::{strictly_ascending, ReadPlan, StableLog};
use crate::errors::KvsError;
use crate::json::{json_prefix, next_frame, Frame, Prefix};
use vstd::prelude::*;
use vstd::slice::slice_subrange;

verus! {

/// The count of reclaimable bytes at which the log is compacted: 1 MiB.
pub const COMPACTION_THRESHOLD: u64 = 1024 * 1024;

/// The store as contracts see it.
pub struct StoreView {
    /// For each live key, the place of its latest `Put` record.
    pub key_dir: Directory,
    /// The id of the log file that receives appends.
    pub active_id: u64,
    /// The number of bytes appended to the active file.
    pub active_pos: u64,
    /// The bytes of superseded records and of `Remove` records since the
    /// last compaction.
    pub uncompacted: u64,
    /// The watermark: log files with a smaller id are gone or about to go.
    pub compacted_id: u64,
}

impl StoreView {
    /// The bytes that the store accounts for: live and reclaimable.
    pub open spec fn total_bytes(self) -> nat {
        live_bytes(self.key_dir) + self.uncompacted as nat
    }

    /// What every store satisfies: the watermark lies at or below the
    /// active file, no live record lies in a file below the watermark, and
    /// the bytes it accounts for can be counted.
    pub open spec fn wf(self) -> bool {
        &&& self.key_dir.dom().finite()
        &&& self.active_id >= 1
        &&& self.compacted_id <= self.active_id
        &&& self.active_pos <= self.total_bytes() <= u64::MAX
        &&& forall|key: Seq<char>| #[trigger]
            self.key_dir.contains_key(key) ==> self.key_dir[key].file_id >= self.compacted_id
    }

    /// The store before anything is replayed or appended: the active file
    /// is the one after the greatest of `file_ids`.
    pub open spec fn initial(file_ids: Seq<u64>) -> StoreView {
        StoreView {
            key_dir: Map::empty(),
            active_id: (max_id(file_ids) + 1) as u64,
            active_pos: 0,
            uncompacted: 0,
            compacted_id: 0,
        }
    }

    /// The store after one record of an existing log file is replayed: the
    /// record lies in `file_id` at `start` and takes `len` bytes.
    pub open spec fn after_replay(self, file_id: u64, start: u64, len: u64, record: Record) -> StoreView {
        match record {
            Record::Put { key, .. } => StoreView {
                key_dir: self.key_dir.insert(key, CommandMeta { file_id, position: start, size: len }),
                uncompacted: (self.uncompacted + size_of(self.key_dir, key)) as u64,
                ..self
            },
            Record::Remove { key, .. } => StoreView {
                key_dir: self.key_dir.remove(key),
                uncompacted: (self.uncompacted + size_of(self.key_dir, key) + len) as u64,
                ..self
            },
        }
    }

    /// The store after a `Put` record of `len` bytes for `key` is appended
    /// to the active file and taken in.
    pub open spec fn after_set(self, key: Seq<char>, len: u64) -> StoreView {
        StoreView {
            key_dir: self.key_dir.insert(
                key,
                CommandMeta { file_id: self.active_id, position: self.active_pos, size: len },
            ),
            active_pos: (self.active_pos + len) as u64,
            uncompacted: (self.uncompacted + size_of(self.key_dir, key)) as u64,
            ..self
        }
    }

    /// The store after a `Remove` record of `len` bytes for `key` is
    /// appended to the active file and taken in.
    pub open spec fn after_remove(self, key: Seq<char>, len: u64) -> StoreView {
        StoreView {
            key_dir: self.key_dir.remove(key),
            active_pos: (self.active_pos + len) as u64,
            uncompacted: (self.uncompacted + size_of(self.key_dir, key) + len) as u64,
            ..self
        }
    }

    /// Whether a compaction is due.
    pub open spec fn compaction_due(self) -> bool {
        self.uncompacted >= COMPACTION_THRESHOLD
    }

    /// Whether two more file ids can be had for a compaction.
    pub open spec fn can_compact(self) -> bool {
        self.active_id + 2 <= u64::MAX
    }

    /// Whether a record of `len` more bytes can be accounted for.
    pub open spec fn has_room(self, len: u64) -> bool {
        self.total_bytes() + len <= u64::MAX
    }

    /// Whether `set` can take a record of `len` bytes for `key`: the bytes
    /// can be counted, and if that makes a compaction due, the ids for it
    /// can be had.
    pub open spec fn admits_set(self, key: Seq<char>, len: u64) -> bool {
        &&& self.has_room(len)
        &&& self.after_set(key, len).compaction_due() ==> self.can_compact()
    }

    /// Whether `remove` can take a record of `len` bytes for `key`.
    pub open spec fn admits_remove(self, key: Seq<char>, len: u64) -> bool {
        &&& self.has_room(len)
        &&& self.after_remove(key, len).compaction_due() ==> self.can_compact()
    }
}

/// How the replay of a log file ends.
pub enum ReplayEnd {
    /// Every byte was read as a record, or as white space after the last.
    Complete,
    /// The file ends in the middle of a record: the record is passed over,
    /// as the end of the log.
    Truncated,
    /// What follows the last record is no JSON value.
    Invalid,
    /// What follows the last record is a JSON value that is no record.
    Refused(Refusal),
}

/// The store after the records in `bytes` from `pos` on are replayed, and
/// how the replay ends. A record takes the bytes from the end of the one
/// before it up to its own end, white space before it included.
pub open spec fn replay_bytes(s: StoreView, file_id: u64, bytes: Seq<u8>, pos: int) -> (StoreView, ReplayEnd)
    decreases bytes.len() - pos,
{
    match json_prefix(bytes.subrange(pos, bytes.len() as int)) {
        Prefix::Value(json, n) => if 0 < n && pos + n <= bytes.len() {
            match record_of(json) {
                Ok(record) => replay_bytes(
                    s.after_replay(file_id, pos as u64, n as u64, record),
                    file_id,
                    bytes,
                    pos + n,
                ),
                Err(refusal) => (s, ReplayEnd::Refused(refusal)),
            }
        } else {
            (s, ReplayEnd::Invalid)
        },
        Prefix::End => (s, ReplayEnd::Complete),
        Prefix::Truncated => (s, ReplayEnd::Truncated),
        Prefix::Invalid => (s, ReplayEnd::Invalid),
    }
}

/// A record that a replay has taken in from the start of some bytes.
#[derive(Debug)]
pub struct Replayed {
    /// The number of bytes that the record takes, white space before it
    /// included.
    pub consumed: usize,
    /// The offset in the file at which the record ends, and the next
    /// begins.
    pub end: u64,
}

/// Whether `step` and the store `post` are what the bytes call for, which
/// lie in the file `file_id` from the offset `start` on: a record at their
/// start is taken in, and the step says how far it goes; nothing but white
/// space, or the start of a record, leaves the store as it is, with
/// nothing taken; anything else is refused and leaves the store as it is.
pub open spec fn replays_next(
    pre: StoreView,
    post: StoreView,
    file_id: u64,
    start: u64,
    bytes: Seq<u8>,
    step: Result<Option<Replayed>, KvsError>,
) -> bool {
    match json_prefix(bytes) {
        Prefix::Value(json, n) => if 0 < n <= bytes.len() {
            match record_of(json) {
                Ok(record) => {
                    &&& step matches Ok(Some(taken)) && taken.consumed == n && taken.end == start + n
                    &&& post == pre.after_replay(file_id, start, n as u64, record)
                },
                Err(Refusal::Malformed) => post == pre && (step matches Err(e) && e is SerdeError),
                Err(Refusal::UnknownTag) => post == pre && (step matches Err(e) && e is UnknownCommand),
            }
        } else {
            post == pre && (step matches Err(e) && e is SerdeError)
        },
        Prefix::End | Prefix::Truncated => post == pre && step matches Ok(None),
        Prefix::Invalid => post == pre && (step matches Err(e) && e is SerdeError),
    }
}

/// The greatest of the ids, or 0 if there is none.
pub open spec fn max_id(ids: Seq<u64>) -> u64
    decreases ids.len(),
{
    if ids.len() == 0 {
        0
    } else if ids.last() >= max_id(ids.drop_last()) {
        ids.last()
    } else {
        max_id(ids.drop_last())
    }
}

/// One live record's way through a compaction.
#[derive(Debug)]
pub struct Relocation {
    /// The key of the record.
    pub key: String,
    /// Where the record lies before the compaction.
    pub from: CommandMeta,
    /// Where its copy lies in the compaction file.
    pub to: CommandMeta,
}

/// What a compaction asks of the owner of the files.
///
/// The bytes of each move's `from` are copied to the end of the file
/// `compaction_id`, in the order of `moves`, and flushed. Only then the store
/// is told to finish the compaction, and points at the copies; then the log
/// files with an id below `compaction_id` are deleted, oldest first. Appends
/// go to the file `active_id` from then on.
#[derive(Debug)]
pub struct Compaction {
    /// The id of the file that receives the live records.
    pub compaction_id: u64,
    /// The id of the new active file.
    pub active_id: u64,
    /// The live records, in the order in which they are copied.
    pub moves: Vec<Relocation>,
}

/// The keys of the moved records, in the order of the moves.
pub open spec fn moved_keys(moves: Seq<Relocation>) -> Seq<Seq<char>> {
    moves.map_values(|m: Relocation| m.key@)
}

/// Whether the move `i` takes the record that `pre` has for its key to the
/// file `id`, right after the copies of the moves before it.
pub open spec fn planned(pre: Directory, id: u64, moves: Seq<Relocation>, i: int) -> bool {
    &&& moves[i].from == pre[moves[i].key@]
    &&& moves[i].to == CommandMeta {
        file_id: id,
        position: listed_bytes(pre, moved_keys(moves), i) as u64,
        size: moves[i].from.size,
    }
}

/// Whether the move `i` is as planned, and `dir` points its key at the
/// copy.
pub open spec fn relocated(pre: Directory, dir: Directory, id: u64, moves: Seq<Relocation>, i: int) -> bool {
    &&& planned(pre, id, moves, i)
    &&& dir[moves[i].key@] == moves[i].to
}

impl Compaction {
    /// The keys of the moved records, in the order of the moves.
    pub open spec fn keys(self) -> Seq<Seq<char>> {
        moved_keys(self.moves@)
    }

    /// Whether this is a plan to compact the store `s`: every live record
    /// is moved once, to the file after the active one, and the copies lie
    /// one after the other from the start of that file, each as long as its
    /// record.
    pub open spec fn plans(self, s: StoreView) -> bool {
        let keys = self.keys();
        &&& self.compaction_id == s.active_id + 1
        &&& self.active_id == s.active_id + 2
        &&& keys.no_duplicates()
        &&& keys.to_set() == s.key_dir.dom()
        &&& forall|i: int|
            0 <= i < self.moves.len() ==> #[trigger] planned(s.key_dir, self.compaction_id, self.moves@, i)
    }

    /// Whether this is a compaction of the store `pre` that leaves the
    /// store `post`: every live record is moved once, the copies lie one
    /// after the other from the start of the compaction file, each as long
    /// as its record, and the directory points at the copies.
    pub open spec fn carries(self, pre: StoreView, post: StoreView) -> bool {
        let keys = self.keys();
        &&& self.compaction_id == pre.active_id + 1
        &&& self.active_id == pre.active_id + 2
        &&& keys.no_duplicates()
        &&& keys.to_set() == pre.key_dir.dom()
        &&& forall|i: int|
            0 <= i < self.moves.len() ==> #[trigger] relocated(
                pre.key_dir,
                post.key_dir,
                self.compaction_id,
                self.moves@,
                i,
            )
        &&& post.key_dir.dom() == pre.key_dir.dom()
        &&& post.active_id == self.active_id
        &&& post.active_pos == 0
        &&& post.uncompacted == 0
        &&& post.compacted_id == self.compaction_id
    }

    /// The log files of `file_ids` that the compaction leaves behind and
    /// that are to be deleted: those with an id below the compaction file's,
    /// in the order of `file_ids`.
    ///
    /// They are deleted oldest first, and no further than the first that
    /// cannot be deleted: a newer file may hold the record that removes a
    /// key of an older one.
    pub fn stale_files(&self, file_ids: &Vec<u64>) -> (stale: Vec<u64>)
        ensures
            stale@ == file_ids@.filter(|id: u64| id < self.compaction_id),
    {
        let mut stale: Vec<u64> = Vec::new();
        let mut i: usize = 0;
        while i < file_ids.len()
            invariant
                0 <= i <= file_ids.len(),
                stale@ == file_ids@.take(i as int).filter(|id: u64| id < self.compaction_id),
            decreases file_ids.len() - i,
        {
            proof {
                reveal(Seq::filter);
                assert(file_ids@.take(i + 1).drop_last() == file_ids@.take(i as int));
            }
            if file_ids[i] < self.compaction_id {
                stale.push(file_ids[i]);
            }
            i += 1;
        }
        assert(file_ids@.take(file_ids.len() as int) == file_ids@);
        stale
    }
}

/// The log-structured store.
pub struct KvStore {
    /// For each live key, the place of its latest `Put` record.
    key_dir: KeyDir,
    /// The id of the active log file.
    file_id: u64,
    /// The number of bytes appended to the active file.
    pos: u64,
    /// The bytes that the next compaction would reclaim.
    uncompacted: u64,
    /// The bytes that the live records take together.
    live: u64,
    /// The watermark.
    compacted_id: u64,
    /// The compaction that has been started and not yet finished.
    pending: Option<Compaction>,
}

impl View for KvStore {
    type V = StoreView;

    closed spec fn view(&self) -> StoreView {
        StoreView {
            key_dir: self.key_dir@,
            active_id: self.file_id,
            active_pos: self.pos,
            uncompacted: self.uncompacted,
            compacted_id: self.compacted_id,
        }
    }
}

impl KvStore {
    /// What every store satisfies, from `open` on.
    pub closed spec fn wf(&self) -> bool {
        &&& self@.wf()
        &&& self.live == live_bytes(self.key_dir@)
        &&& self.pending matches Some(compaction) ==> compaction.plans(self@)
    }

    /// The compaction that has been started and not yet finished, if there
    /// is one. While there is, the store takes in no record.
    pub closed spec fn pending(&self) -> Option<Compaction> {
        self.pending
    }

    /// A store is what its view is: what holds of every store as
    /// contracts see it holds of this one, and a pending compaction is a
    /// plan to compact it.
    pub proof fn lemma_wf(&self)
        requires
            self.wf(),
        ensures
            self@.wf(),
            self.pending() matches Some(compaction) ==> compaction.plans(self@),
    {
    }

    /// A store for a data directory that holds the log files `file_ids`.
    ///
    /// The directory is empty until the files are replayed. Appends will go
    /// to a new file, whose id is one more than the greatest id in the
    /// directory, or 1 if there is no log file.
    pub fn open(file_ids: &Vec<u64>) -> (store: KvStore)
        requires
            forall|i: int| 0 <= i < file_ids.len() ==> file_ids[i] < u64::MAX,
        ensures
            store.wf(),
            store@ == StoreView::initial(file_ids@),
            store@.total_bytes() == 0,
            store.pending() is None,
    {
        let mut greatest: u64 = 0;
        let mut i: usize = 0;
        while i < file_ids.len()
            invariant
                0 <= i <= file_ids.len(),
                greatest == max_id(file_ids@.take(i as int)),
                greatest < u64::MAX,
                forall|i: int| 0 <= i < file_ids.len() ==> file_ids[i] < u64::MAX,
            decreases file_ids.len() - i,
        {
            proof {
                assert(file_ids@.take(i + 1).drop_last() == file_ids@.take(i as int));
            }
            if file_ids[i] >= greatest {
                greatest = file_ids[i];
            }
            i += 1;
        }
        proof {
            assert(file_ids@.take(file_ids.len() as int) == file_ids@);
            lemma_live_bytes_empty();
        }
        KvStore {
            key_dir: KeyDir::new(),
            file_id: greatest + 1,
            pos: 0,
            uncompacted: 0,
            live: 0,
            compacted_id: 0,
            pending: None,
        }
    }

    /// The id of the log file that receives appends.
    pub fn active_file_id(&self) -> (id: u64)
        ensures
            id == self@.active_id,
    {
        self.file_id
    }

    /// The number of bytes appended to the active file.
    pub fn active_pos(&self) -> (pos: u64)
        ensures
            pos == self@.active_pos,
    {
        self.pos
    }

    /// The bytes that the next compaction would reclaim.
    pub fn uncompacted(&self) -> (bytes: u64)
        ensures
            bytes == self@.uncompacted,
    {
        self.uncompacted
    }

    /// The watermark: no log file with a smaller id may be opened.
    pub fn compacted_id(&self) -> (id: u64)
        ensures
            id == self@.compacted_id,
    {
        self.compacted_id
    }

    /// The compaction that has been started and not yet finished, if there
    /// is one.
    pub fn compaction(&self) -> (compaction: Option<&Compaction>)
        ensures
            match compaction {
                Some(plan) => self.pending() == Some(*plan),
                None => self.pending() is None,
            },
    {
        self.pending.as_ref()
    }

    /// The bytes that the live records take together.
    pub fn live_bytes(&self) -> (bytes: u64)
        requires
            self.wf(),
        ensures
            bytes == live_bytes(self@.key_dir),
    {
        self.live
    }

    /// Whether `key` is live.
    pub fn contains_key(&self, key: &str) -> (found: bool)
        ensures
            found == self@.key_dir.contains_key(key@),
    {
        self.key_dir.contains_key(key)
    }

    /// Where the latest record of `key` lies, if the key is live.
    pub fn locate(&self, key: &str) -> (meta: Option<CommandMeta>)
        ensures
            meta == self@.key_dir.get(key@),
    {
        self.key_dir.get(key)
    }

    /// Says how the reader with the cache `readers` gets at the record of
    /// `key`, or `None` if the key is not live.
    ///
    /// The plan names a file at or above the watermark: no reader is sent
    /// to a file that a compaction has left behind.
    pub fn plan_read(&self, key: &str, readers: &mut StableLog) -> (plan: Option<ReadPlan>)
        requires
            self.wf(),
            old(readers).wf(),
        ensures
            final(readers).wf(),
            match plan {
                None => !self@.key_dir.contains_key(key@) && final(readers)@ == old(readers)@,
                Some(plan) => {
                    &&& self@.key_dir.contains_key(key@)
                    &&& plan.file_id == self@.key_dir[key@].file_id
                    &&& plan.position == self@.key_dir[key@].position
                    &&& plan.size == self@.key_dir[key@].size
                    &&& plan.file_id >= self@.compacted_id
                    &&& plan.open == !old(readers)@.contains(plan.file_id)
                    &&& plan.evicted@.to_set() == old(readers)@.filter(|id: u64| id < self@.compacted_id)
                    &&& strictly_ascending(plan.evicted@)
                    &&& final(readers)@ == old(readers)@.filter(|id: u64| id >= self@.compacted_id)
                },
            },
    {
        match self.key_dir.get(key) {
            None => None,
            Some(meta) => {
                assert(self@.key_dir.contains_key(key@));
                match readers.locate(&meta, self.compacted_id) {
                    Ok(plan) => Some(plan),
                    Err(_) => {
                        assert(false);
                        None
                    },
                }
            },
        }
    }

    /// Whether a record of `len` more bytes can be accounted for.
    pub fn has_room(&self, len: u64) -> (ok: bool)
        requires
            self.wf(),
        ensures
            ok == self@.has_room(len),
    {
        len <= u64::MAX - self.live - self.uncompacted
    }

    /// Takes in one record of an existing log file: `cmd` was read from the
    /// file `file_id`, where it takes the bytes from `start` up to `end`.
    ///
    /// A `Put` points its key at the record; a `Remove` takes its key out.
    /// The record that the key pointed at before, and a `Remove` record
    /// itself, count as reclaimable. The file may not lie below the
    /// watermark, which is 0 until the first compaction.
    pub fn replay(&mut self, file_id: u64, start: u64, end: u64, cmd: &Command)
        requires
            old(self).wf(),
            old(self).pending() is None,
            start <= end,
            old(self)@.has_room((end - start) as u64),
            old(self)@.compacted_id <= file_id,
        ensures
            final(self).wf(),
            final(self).pending() is None,
            final(self)@ == old(self)@.after_replay(file_id, start, (end - start) as u64, cmd@),
            final(self)@.total_bytes() == old(self)@.total_bytes() + (end - start),
    {
        let len: u64 = end - start;
        match cmd {
            Command::Put { key, .. } => {
                let meta = CommandMeta { file_id, position: start, size: len };
                proof {
                    lemma_live_bytes_insert(self.key_dir@, key@, meta);
                }
                match self.key_dir.insert(key.clone(), meta) {
                    Some(old_meta) => {
                        self.uncompacted = self.uncompacted + old_meta.size;
                        self.live = self.live - old_meta.size + len;
                    },
                    None => {
                        self.live = self.live + len;
                    },
                }
            },
            Command::Remove { key, .. } => {
                proof {
                    lemma_live_bytes_without(self.key_dir@, key@);
                }
                match self.key_dir.remove(key.as_str()) {
                    Some(old_meta) => {
                        self.uncompacted = self.uncompacted + old_meta.size + len;
                        self.live = self.live - old_meta.size;
                    },
                    None => {
                        self.uncompacted = self.uncompacted + len;
                    },
                }
            },
        }
    }

    /// Takes in the first record among `bytes`, which are the bytes of
    /// the log file `file_id` from the offset `start` on, as far as they
    /// have been read.
    ///
    /// A record is taken in only when all of it is there: for nothing but
    /// white space, and for the start of a record, the result is `None`,
    /// and more of the file can be read. Bytes that are no JSON value are
    /// refused with `SerdeError`, and so is a value that is no record; a
    /// record with an unknown tag is refused with `UnknownCommand`.
    pub fn replay_next(&mut self, file_id: u64, start: u64, bytes: &[u8]) -> (step: Result<
        Option<Replayed>,
        KvsError,
    >)
        requires
            old(self).wf(),
            old(self).pending() is None,
            old(self)@.total_bytes() + bytes@.len() <= u64::MAX,
            start + bytes@.len() <= u64::MAX,
            old(self)@.compacted_id <= file_id,
        ensures
            final(self).wf(),
            final(self).pending() is None,
            replays_next(old(self)@, final(self)@, file_id, start, bytes@, step),
            final(self)@.total_bytes() == old(self)@.total_bytes() + (match step {
                Ok(Some(taken)) => taken.consumed as int,
                _ => 0,
            }),
            final(self)@.active_id == old(self)@.active_id,
            final(self)@.active_pos == old(self)@.active_pos,
            final(self)@.compacted_id == old(self)@.compacted_id,
    {
        match next_frame(bytes) {
            Frame::Value { json, consumed } => {
                let cmd = match Command::from_json(&json) {
                    Ok(cmd) => cmd,
                    Err(e) => {
                        return Err(e);
                    },
                };
                let end: u64 = start + consumed as u64;
                self.replay(file_id, start, end, &cmd);
                Ok(Some(Replayed { consumed, end }))
            },
            Frame::Nothing => Ok(None),
            Frame::Partial(_) => Ok(None),
            Frame::Broken(e) => Err(e),
        }
    }

    /// Takes in the records of an existing log file, whose content is
    /// `bytes`, in the order of the file.
    ///
    /// A file that ends in the middle of a record is replayed up to that
    /// record. Bytes that are no JSON value are refused with `SerdeError`,
    /// and so is a value that is no record; a record with an unknown tag is
    /// refused with `UnknownCommand`. The records before the refused bytes
    /// have been taken in. The active file and the watermark stay as they
    /// are, so that the next file can be replayed.
    pub fn replay_file(&mut self, file_id: u64, bytes: &[u8]) -> (outcome: Result<(), KvsError>)
        requires
            old(self).wf(),
            old(self).pending() is None,
            old(self)@.total_bytes() + bytes@.len() <= u64::MAX,
            old(self)@.compacted_id <= file_id,
        ensures
            final(self).wf(),
            final(self).pending() is None,
            final(self)@ == replay_bytes(old(self)@, file_id, bytes@, 0).0,
            final(self)@.total_bytes() <= old(self)@.total_bytes() + bytes@.len(),
            final(self)@.active_id == old(self)@.active_id,
            final(self)@.active_pos == old(self)@.active_pos,
            final(self)@.compacted_id == old(self)@.compacted_id,
            match replay_bytes(old(self)@, file_id, bytes@, 0).1 {
                ReplayEnd::Complete | ReplayEnd::Truncated => outcome is Ok,
                ReplayEnd::Invalid | ReplayEnd::Refused(Refusal::Malformed) => outcome matches Err(e)
                    && e is SerdeError,
                ReplayEnd::Refused(Refusal::UnknownTag) => outcome matches Err(e) && e is UnknownCommand,
            },
    {
        let len: usize = bytes.len();
        let mut pos: usize = 0;
        loop
            invariant
                0 <= pos <= len,
                len == bytes@.len(),
                self.wf(),
                self.pending() is None,
                self@.total_bytes() + (len - pos) <= u64::MAX,
                self@.total_bytes() == old(self)@.total_bytes() + pos,
                self@.compacted_id <= file_id,
                self@.active_id == old(self)@.active_id,
                self@.active_pos == old(self)@.active_pos,
                self@.compacted_id == old(self)@.compacted_id,
                replay_bytes(self@, file_id, bytes@, pos as int) == replay_bytes(
                    old(self)@,
                    file_id,
                    bytes@,
                    0,
                ),
            decreases len - pos,
        {
            let rest = slice_subrange(bytes, pos, len);
            match self.replay_next(file_id, pos as u64, rest) {
                Ok(Some(taken)) => {
                    pos = pos + taken.consumed;
                },
                Ok(None) => {
                    return Ok(());
                },
                Err(e) => {
                    return Err(e);
                },
            }
        }
    }

    /// Whether `set` can take a record of `len` bytes for `key`: no
    /// compaction is pending, the bytes can be counted, and if they make a
    /// compaction due, the ids for it can be had.
    pub fn can_set(&self, key: &str, len: u64) -> (ok: bool)
        requires
            self.wf(),
        ensures
            ok == (self.pending() is None && self@.admits_set(key@, len)),
    {
        if self.pending.is_some() || !self.has_room(len) {
            return false;
        }
        let dead: u64 = match self.key_dir.get(key) {
            Some(old_meta) => {
                proof {
                    lemma_live_bytes_remove(self.key_dir@, key@);
                }
                old_meta.size
            },
            None => 0,
        };
        if self.uncompacted + dead >= COMPACTION_THRESHOLD {
            self.file_id <= u64::MAX - 2
        } else {
            true
        }
    }

    /// Whether `remove` can take a record of `len` bytes for `key`.
    pub fn can_remove(&self, key: &str, len: u64) -> (ok: bool)
        requires
            self.wf(),
        ensures
            ok == (self.pending() is None && self@.admits_remove(key@, len)),
    {
        if self.pending.is_some() || !self.has_room(len) {
            return false;
        }
        let dead: u64 = match self.key_dir.get(key) {
            Some(old_meta) => {
                proof {
                    lemma_live_bytes_remove(self.key_dir@, key@);
                }
                old_meta.size
            },
            None => 0,
        };
        if self.uncompacted + dead + len >= COMPACTION_THRESHOLD {
            self.file_id <= u64::MAX - 2
        } else {
            true
        }
    }

    /// Records that a `Put` record of `len` bytes for `key` has been
    /// appended to the active file and flushed.
    ///
    /// The key now points at that record, and the record it pointed at
    /// before counts as reclaimable. If that brings the reclaimable bytes to
    /// the threshold, a compaction is started, and the result is `true`.
    pub fn set(&mut self, key: String, len: u64) -> (started: bool)
        requires
            old(self).wf(),
            old(self).pending() is None,
            old(self)@.admits_set(key@, len),
        ensures
            final(self).wf(),
            final(self)@ == old(self)@.after_set(key@, len),
            final(self)@.total_bytes() == old(self)@.total_bytes() + len,
            started == final(self)@.compaction_due(),
            started == (final(self).pending() is Some),
    {
        let meta = CommandMeta { file_id: self.file_id, position: self.pos, size: len };
        proof {
            lemma_live_bytes_insert(self.key_dir@, key@, meta);
        }
        match self.key_dir.insert(key, meta) {
            Some(old_meta) => {
                self.uncompacted = self.uncompacted + old_meta.size;
                self.live = self.live - old_meta.size + len;
            },
            None => {
                self.live = self.live + len;
            },
        }
        self.pos = self.pos + len;
        if self.uncompacted >= COMPACTION_THRESHOLD {
            self.start_compaction();
            true
        } else {
            false
        }
    }

    /// Records that a `Remove` record of `len` bytes for `key` has been
    /// appended to the active file and flushed.
    ///
    /// A key that is not live is refused with `KeyNotFound`, and nothing
    /// changes: no record may be appended for it. Otherwise the key leaves
    /// the directory, and its record and the `Remove` record count as
    /// reclaimable. If that brings the reclaimable bytes to the threshold, a
    /// compaction is started, and the result is `true`.
    pub fn remove(&mut self, key: &str, len: u64) -> (started: Result<bool, KvsError>)
        requires
            old(self).wf(),
            old(self).pending() is None,
            old(self)@.key_dir.contains_key(key@) ==> old(self)@.admits_remove(key@, len),
        ensures
            final(self).wf(),
            match started {
                Err(e) => {
                    &&& e is KeyNotFound
                    &&& !old(self)@.key_dir.contains_key(key@)
                    &&& final(self)@ == old(self)@
                    &&& final(self).pending() is None
                },
                Ok(started) => {
                    &&& old(self)@.key_dir.contains_key(key@)
                    &&& final(self)@ == old(self)@.after_remove(key@, len)
                    &&& final(self)@.total_bytes() == old(self)@.total_bytes() + len
                    &&& started == final(self)@.compaction_due()
                    &&& started == (final(self).pending() is Some)
                },
            },
    {
        proof {
            lemma_live_bytes_without(self.key_dir@, key@);
        }
        match self.key_dir.remove(key) {
            None => {
                assert(self.key_dir@ == old(self).key_dir@);
                Err(KvsError::KeyNotFound)
            },
            Some(old_meta) => {
                self.uncompacted = self.uncompacted + old_meta.size + len;
                self.live = self.live - old_meta.size;
                self.pos = self.pos + len;
                if self.uncompacted >= COMPACTION_THRESHOLD {
                    self.start_compaction();
                    Ok(true)
                } else {
                    Ok(false)
                }
            },
        }
    }

    /// Starts a compaction: plans where every live record goes in a new
    /// file, the one after the active file.
    ///
    /// The directory stays as it is until the compaction is finished, so
    /// that every key reads from its old place while the records are
    /// copied.
    pub fn start_compaction(&mut self)
        requires
            old(self).wf(),
            old(self).pending() is None,
            old(self)@.can_compact(),
        ensures
            final(self).wf(),
            final(self)@ == old(self)@,
            final(self).pending() matches Some(compaction) && compaction.plans(old(self)@),
    {
        let keys = self.key_dir.keys();
        let ghost pre = self@.key_dir;
        let ghost listed = key_views(keys@);
        let compaction_id: u64 = self.file_id + 1;
        let mut moves: Vec<Relocation> = Vec::new();
        let mut offset: u64 = 0;
        let mut i: usize = 0;
        proof {
            lemma_all_listed(pre, listed);
        }
        while i < keys.len()
            invariant
                0 <= i <= keys.len(),
                listed == key_views(keys@),
                listed.no_duplicates(),
                pre.dom().finite(),
                live_bytes(pre) <= u64::MAX,
                forall|j: int| 0 <= j < listed.len() ==> pre.contains_key(#[trigger] listed[j]),
                self.key_dir@ == pre,
                offset == listed_bytes(pre, listed, i as int),
                moves.len() == i,
                moved_keys(moves@) == listed.take(i as int),
                forall|j: int| 0 <= j < i ==> #[trigger] planned(pre, compaction_id, moves@, j),
            decreases keys.len() - i,
        {
            let key = keys[i].clone();
            proof {
                assert(key@ == listed[i as int]);
                lemma_listed_bytes(pre, listed, i + 1);
            }
            let ghost moves_before = moves@;
            match self.key_dir.get(key.as_str()) {
                Some(from) => {
                    let to = CommandMeta { file_id: compaction_id, position: offset, size: from.size };
                    moves.push(Relocation { key, from, to });
                    offset = offset + from.size;
                    proof {
                        lemma_one_more_move(pre, compaction_id, listed, moves_before, moves@, i as int);
                    }
                },
                None => {
                    assert(false);
                },
            }
            i += 1;
        }
        proof {
            assert(listed.take(listed.len() as int) == listed);
        }
        self.pending = Some(Compaction { compaction_id, active_id: self.file_id + 2, moves });
    }

    /// Finishes the pending compaction, once its records are copied: the
    /// directory points at the copies, appends go to the new active file,
    /// the watermark rises to the compaction file, and nothing is left to
    /// reclaim. The result is the compaction, or `None` if none was pending.
    ///
    /// The records keep their lengths, so the compaction file is as long as
    /// the live records were.
    pub fn finish_compaction(&mut self) -> (done: Option<Compaction>)
        requires
            old(self).wf(),
        ensures
            final(self).wf(),
            final(self).pending() is None,
            done == old(self).pending(),
            match done {
                Some(compaction) => {
                    &&& compaction.carries(old(self)@, final(self)@)
                    &&& forall|key: Seq<char>| #[trigger]
                        final(self)@.key_dir.contains_key(key) ==> {
                            &&& final(self)@.key_dir[key].file_id == compaction.compaction_id
                            &&& final(self)@.key_dir[key].size == old(self)@.key_dir[key].size
                        }
                    &&& live_bytes(final(self)@.key_dir) == live_bytes(old(self)@.key_dir)
                    &&& final(self)@.total_bytes() == live_bytes(old(self)@.key_dir)
                },
                None => final(self)@ == old(self)@,
            },
    {
        let compaction = match self.pending.take() {
            Some(compaction) => compaction,
            None => {
                return None;
            },
        };
        let ghost pre = self@;
        let ghost keys = compaction.keys();
        proof {
            lemma_all_listed(pre.key_dir, keys);
        }
        let mut i: usize = 0;
        while i < compaction.moves.len()
            invariant
                0 <= i <= compaction.moves.len(),
                keys == compaction.keys(),
                compaction.plans(pre),
                forall|j: int| 0 <= j < keys.len() ==> pre.key_dir.contains_key(#[trigger] keys[j]),
                self.key_dir@.dom() == pre.key_dir.dom(),
                self.file_id == pre.active_id,
                self.pos == pre.active_pos,
                self.uncompacted == pre.uncompacted,
                self.compacted_id == pre.compacted_id,
                self.live == old(self).live,
                self.pending is None,
                forall|j: int|
                    0 <= j < i ==> self.key_dir@[#[trigger] keys[j]] == compaction.moves[j].to,
                forall|j: int|
                    i <= j < keys.len() ==> self.key_dir@[#[trigger] keys[j]] == pre.key_dir[keys[j]],
            decreases compaction.moves.len() - i,
        {
            let key = compaction.moves[i].key.clone();
            let to = compaction.moves[i].to;
            let ghost before = self.key_dir@;
            self.key_dir.insert(key, to);
            proof {
                assert(key@ == keys[i as int]);
                assert(self.key_dir@.dom() =~= pre.key_dir.dom());
                assert forall|j: int| 0 <= j < keys.len() && j != i implies self.key_dir@[keys[j]]
                    == before[keys[j]] by {
                    assert(keys[j] != keys[i as int]);
                }
            }
            i += 1;
        }
        self.file_id = compaction.active_id;
        self.pos = 0;
        self.uncompacted = 0;
        self.compacted_id = compaction.compaction_id;
        proof {
            assert forall|j: int| 0 <= j < compaction.moves.len() implies #[trigger] relocated(
                pre.key_dir,
                self.key_dir@,
                compaction.compaction_id,
                compaction.moves@,
                j,
            ) by {
                assert(planned(pre.key_dir, compaction.compaction_id, compaction.moves@, j));
                assert(self.key_dir@[keys[j]] == compaction.moves[j].to);
            }
            lemma_same_sizes(pre.key_dir, self.key_dir@, compaction.compaction_id, compaction.moves@);
        }
        Some(compaction)
    }
}

/// The copies of a compaction lie apart in the compaction file, in the
/// order of the moves, and within as many bytes as the live records take:
/// no record is copied twice.
pub proof fn compaction_copies_lie_apart(compaction: Compaction, pre: StoreView, post: StoreView, i: int, j: int)
    requires
        pre.wf(),
        compaction.carries(pre, post),
        0 <= i < j < compaction.moves.len(),
    ensures
        compaction.moves[i].to.end() <= compaction.moves[j].to.position,
        compaction.moves[j].to.end() <= live_bytes(pre.key_dir),
        live_bytes(post.key_dir) == live_bytes(pre.key_dir),
{
    let keys = compaction.keys();
    let moves = compaction.moves@;
    let id = compaction.compaction_id;
    lemma_all_listed(pre.key_dir, keys);
    lemma_same_sizes(pre.key_dir, post.key_dir, id, moves);
    assert(relocated(pre.key_dir, post.key_dir, id, moves, i));
    assert(relocated(pre.key_dir, post.key_dir, id, moves, j));
    lemma_listed_bytes(pre.key_dir, keys, i + 1);
    lemma_listed_bytes(pre.key_dir, keys, j + 1);
    lemma_listed_bytes_grow(pre.key_dir, keys, i + 1, j);
}

/// A compaction leaves nothing to reclaim, and the `set` that follows it
/// finds nothing: what it leaves to reclaim is the record that its key had,
/// and nothing for a key that had none.
pub proof fn set_after_compaction(compaction: Compaction, pre: StoreView, post: StoreView, key: Seq<char>, len: u64)
    requires
        pre.wf(),
        compaction.carries(pre, post),
        post.has_room(len),
    ensures
        post.wf(),
        post.uncompacted == 0,
        !post.compaction_due(),
        post.after_set(key, len).uncompacted == size_of(post.key_dir, key),
        !post.key_dir.contains_key(key) ==> post.after_set(key, len).uncompacted == 0,
{
    lemma_all_listed(pre.key_dir, compaction.keys());
    lemma_same_sizes(pre.key_dir, post.key_dir, compaction.compaction_id, compaction.moves@);
    lemma_live_bytes_insert(
        post.key_dir,
        key,
        CommandMeta { file_id: post.active_id, position: post.active_pos, size: len },
    );
}

/// The reclaimable bytes do not shrink between compactions: a `set` and a
/// `remove` add to them what they supersede.
pub proof fn reclaimable_bytes_grow(s: StoreView, key: Seq<char>, len: u64)
    requires
        s.wf(),
        s.has_room(len),
    ensures
        s.after_set(key, len).uncompacted == s.uncompacted + size_of(s.key_dir, key),
        s.after_remove(key, len).uncompacted == s.uncompacted + size_of(s.key_dir, key) + len,
        s.after_set(key, len).wf(),
        s.after_remove(key, len).wf(),
{
    lemma_live_bytes_insert(
        s.key_dir,
        key,
        CommandMeta { file_id: s.active_id, position: s.active_pos, size: len },
    );
    lemma_live_bytes_without(s.key_dir, key);
}

/// More of the listed records take no fewer bytes.
proof fn lemma_listed_bytes_grow(dir: Directory, keys: Seq<Seq<char>>, m: int, n: int)
    requires
        0 <= m <= n,
    ensures
        listed_bytes(dir, keys, m) <= listed_bytes(dir, keys, n),
    decreases n - m,
{
    if m < n {
        lemma_listed_bytes_grow(dir, keys, m, n - 1);
    }
}

/// Every key of a listing of the directory's keys is in the directory.
proof fn lemma_all_listed(dir: Directory, listed: Seq<Seq<char>>)
    requires
        listed.to_set() == dir.dom(),
    ensures
        forall|j: int| 0 <= j < listed.len() ==> dir.contains_key(#[trigger] listed[j]),
{
    assert forall|j: int| 0 <= j < listed.len() implies dir.contains_key(#[trigger] listed[j]) by {
        assert(listed.to_set().contains(listed[j]));
    }
}

/// One step of a plan: with the record of the key `listed[i]` planned, the
/// moves up to it are as planned.
proof fn lemma_one_more_move(
    pre: Directory,
    id: u64,
    listed: Seq<Seq<char>>,
    moves_before: Seq<Relocation>,
    moves: Seq<Relocation>,
    i: int,
)
    requires
        0 <= i < listed.len(),
        moves_before.len() == i,
        moved_keys(moves_before) == listed.take(i),
        moves == moves_before.push(moves[i]),
        moves[i].key@ == listed[i],
        moves[i].from == pre[listed[i]],
        moves[i].to == (CommandMeta {
            file_id: id,
            position: listed_bytes(pre, listed, i) as u64,
            size: moves[i].from.size,
        }),
        forall|j: int| 0 <= j < i ==> #[trigger] planned(pre, id, moves_before, j),
    ensures
        moved_keys(moves) == listed.take(i + 1),
        forall|j: int| 0 <= j < i + 1 ==> #[trigger] planned(pre, id, moves, j),
{
    assert(moved_keys(moves) =~= listed.take(i + 1)) by {
        assert forall|j: int| 0 <= j < i + 1 implies moved_keys(moves)[j] == listed.take(i + 1)[j] by {
            if j < i {
                assert(moves[j] == moves_before[j]);
                assert(moved_keys(moves_before)[j] == listed.take(i)[j]);
            }
        }
    }
    assert forall|j: int| 0 <= j < i + 1 implies #[trigger] planned(pre, id, moves, j) by {
        lemma_listed_bytes_prefix(pre, moved_keys(moves), listed, j);
        if j < i {
            assert(planned(pre, id, moves_before, j));
            assert(moves[j] == moves_before[j]);
            assert(moved_keys(moves_before)[j] == listed.take(i)[j]);
            lemma_listed_bytes_prefix(pre, moved_keys(moves_before), listed, j);
        }
    }
}

/// The bytes of the first `n` listed records depend on the first `n` keys
/// alone.
proof fn lemma_listed_bytes_prefix(dir: Directory, a: Seq<Seq<char>>, b: Seq<Seq<char>>, n: int)
    requires
        0 <= n <= a.len(),
        n <= b.len(),
        forall|j: int| 0 <= j < n ==> a[j] == b[j],
    ensures
        listed_bytes(dir, a, n) == listed_bytes(dir, b, n),
    decreases n,
{
    if n > 0 {
        lemma_listed_bytes_prefix(dir, a, b, n - 1);
    }
}

/// A compaction keeps the bytes of the live records: it moves every record
/// to the compaction file and keeps its length.
pub proof fn lemma_same_sizes(pre: Directory, post: Directory, id: u64, moves: Seq<Relocation>)
    requires
        pre.dom().finite(),
        post.dom() == pre.dom(),
        moved_keys(moves).no_duplicates(),
        moved_keys(moves).to_set() == pre.dom(),
        forall|j: int| 0 <= j < moves.len() ==> #[trigger] relocated(pre, post, id, moves, j),
    ensures
        live_bytes(post) == live_bytes(pre),
        forall|key: Seq<char>| #[trigger]
            post.contains_key(key) ==> post[key].file_id == id && post[key].size == pre[key].size,
{
    let keys = moved_keys(moves);
    let n = keys.len() as int;
    lemma_all_listed(pre, keys);
    lemma_all_listed(post, keys);
    assert forall|key: Seq<char>| #[trigger] post.contains_key(key) implies post[key].file_id == id
        && post[key].size == pre[key].size by {
        assert(keys.to_set().contains(key));
        assert(keys.contains(key));
        let j = choose|j: int| 0 <= j < keys.len() && keys[j] == key;
        assert(relocated(pre, post, id, moves, j));
    }
    assert(keys.take(n) == keys);
    lemma_listed_bytes(pre, keys, n);
    lemma_listed_bytes(post, keys, n);
    assert forall|j: int| 0 <= j < n implies size_of(pre, #[trigger] keys[j]) == size_of(post, keys[j]) by {
        assert(relocated(pre, post, id, moves, j));
    }
    lemma_listed_bytes_same(pre, post, keys, n);
}

} // verus!
