//! The readers' side of the log: which log files a handle of the store has
//! open for reading, and how it gets from a record pointer to the record.

use super::command::{record_of, Command, CommandMeta, Record, Refusal};
use crate::errors::KvsError;
use crate::json::{json_document, parse_json_document};
use vstd::prelude::*;

verus! {

/// Whether the ids ascend, each greater than the one before.
pub open spec fn strictly_ascending(ids: Seq<u64>) -> bool {
    forall|i: int, j: int| 0 <= i < j < ids.len() ==> ids[i] < ids[j]
}

/// What a reader does to get at a record.
#[derive(Debug)]
pub struct ReadPlan {
    /// The files whose read handles are closed first: they lie below the
    /// watermark.
    pub evicted: Vec<u64>,
    /// Whether the file of the record has to be opened for reading.
    pub open: bool,
    /// The file of the record.
    pub file_id: u64,
    /// The offset at which the record starts.
    pub position: u64,
    /// The number of bytes to read.
    pub size: u64,
}

/// The log files that one handle of the store has open for reading.
pub struct StableLog {
    read_handles: Vec<u64>,
}

impl View for StableLog {
    type V = Set<u64>;

    closed spec fn view(&self) -> Set<u64> {
        self.read_handles@.to_set()
    }
}

impl StableLog {
    /// What every cache satisfies.
    pub closed spec fn wf(&self) -> bool {
        strictly_ascending(self.read_handles@)
    }

    /// A cache without open files.
    pub fn new() -> (log: StableLog)
        ensures
            log.wf(),
            log@ == Set::<u64>::empty(),
    {
        let log = StableLog { read_handles: Vec::new() };
        assert(log.read_handles@.to_set() =~= Set::empty());
        log
    }

    /// Whether the file is open for reading.
    pub fn is_open(&self, file_id: u64) -> (open: bool)
        ensures
            open == self@.contains(file_id),
    {
        let mut i: usize = 0;
        while i < self.read_handles.len()
            invariant
                0 <= i <= self.read_handles.len(),
                forall|k: int| 0 <= k < i ==> self.read_handles@[k] != file_id,
            decreases self.read_handles.len() - i,
        {
            if self.read_handles[i] == file_id {
                assert(self.read_handles@.contains(file_id));
                return true;
            }
            i += 1;
        }
        assert(!self.read_handles@.contains(file_id));
        false
    }

    /// Forgets the files below the watermark, and returns them in ascending
    /// order: their read handles are to be closed.
    pub fn remove_stale_log(&mut self, compacted_id: u64) -> (evicted: Vec<u64>)
        requires
            old(self).wf(),
        ensures
            final(self).wf(),
            final(self)@ == old(self)@.filter(|id: u64| id >= compacted_id),
            evicted@.to_set() == old(self)@.filter(|id: u64| id < compacted_id),
            strictly_ascending(evicted@),
    {
        let mut evicted: Vec<u64> = Vec::new();
        let mut kept: Vec<u64> = Vec::new();
        let mut i: usize = 0;
        let ghost all = self.read_handles@;
        while i < self.read_handles.len()
            invariant
                0 <= i <= self.read_handles.len(),
                self.read_handles@ == all,
                strictly_ascending(all),
                evicted@ == all.take(i as int).filter(|id: u64| id < compacted_id),
                kept@ == all.take(i as int).filter(|id: u64| id >= compacted_id),
            decreases self.read_handles.len() - i,
        {
            let id: u64 = self.read_handles[i];
            proof {
                reveal(Seq::filter);
                assert(all.take(i + 1).drop_last() == all.take(i as int));
                assert(all.take(i + 1).last() == id);
            }
            if id < compacted_id {
                evicted.push(id);
            } else {
                kept.push(id);
            }
            i += 1;
        }
        proof {
            assert(all.take(all.len() as int) == all);
            lemma_filter_ascending(all, |id: u64| id < compacted_id);
            lemma_filter_ascending(all, |id: u64| id >= compacted_id);
            lemma_filter_to_set(all, |id: u64| id < compacted_id);
            lemma_filter_to_set(all, |id: u64| id >= compacted_id);
        }
        self.read_handles = kept;
        evicted
    }

    /// Notes that the file has been opened for reading.
    pub fn opened(&mut self, file_id: u64)
        requires
            old(self).wf(),
        ensures
            final(self).wf(),
            final(self)@ == old(self)@.insert(file_id),
    {
        let ghost before = self.read_handles@;
        let mut at: usize = 0;
        while at < self.read_handles.len() && self.read_handles[at] < file_id
            invariant
                0 <= at <= self.read_handles.len(),
                self.read_handles@ == before,
                strictly_ascending(before),
                forall|k: int| 0 <= k < at ==> before[k] < file_id,
            decreases self.read_handles.len() - at,
        {
            at += 1;
        }
        if at < self.read_handles.len() && self.read_handles[at] == file_id {
            proof {
                assert(before.contains(file_id));
                assert(before.to_set().insert(file_id) =~= before.to_set());
            }
            return ;
        }
        self.read_handles.insert(at, file_id);
        proof {
            let after = self.read_handles@;
            assert forall|i: int, j: int| 0 <= i < j < after.len() implies after[i] < after[j] by {
                if j < at {
                    assert(before[i] < before[j]);
                } else if j == at {
                } else if i < at {
                    assert(before[i] < file_id);
                    assert(before[at as int] <= before[j - 1]) by {
                        if at < j - 1 {
                            assert(before[at as int] < before[j - 1]);
                        }
                    }
                } else if i == at {
                    assert(before[at as int] <= before[j - 1]) by {
                        if at < j - 1 {
                            assert(before[at as int] < before[j - 1]);
                        }
                    }
                } else {
                    assert(before[i - 1] < before[j - 1]);
                }
            }
            assert(after.to_set() =~= before.to_set().insert(file_id)) by {
                assert forall|id: u64| after.to_set().contains(id) implies before.to_set().insert(
                    file_id,
                ).contains(id) by {
                    assert(after.contains(id));
                    let k = choose|k: int| 0 <= k < after.len() && after[k] == id;
                    if k < at {
                        assert(before[k] == id);
                        assert(before.contains(id));
                    } else if k > at {
                        assert(before[k - 1] == id);
                        assert(before.contains(id));
                    }
                }
                assert forall|id: u64| before.to_set().insert(file_id).contains(id) implies after.to_set().contains(
                    id,
                ) by {
                    if id == file_id {
                        assert(after[at as int] == id);
                        assert(after.contains(id));
                    } else {
                        assert(before.contains(id));
                        let k = choose|k: int| 0 <= k < before.len() && before[k] == id;
                        if k < at {
                            assert(after[k] == id);
                        } else {
                            assert(after[k + 1] == id);
                        }
                        assert(after.contains(id));
                    }
                }
            }
        }
    }

    /// Says how to get at the record that `meta` points at, given the
    /// watermark `compacted_id`.
    ///
    /// The files below the watermark are forgotten first. A pointer into
    /// such a file is refused with `LogFileNotFound`: that file must not be
    /// opened. Otherwise the plan says whether the record's file has to be
    /// opened, and names the bytes to read. The file counts as open only
    /// once `opened` is told so.
    pub fn locate(&mut self, meta: &CommandMeta, compacted_id: u64) -> (plan: Result<ReadPlan, KvsError>)
        requires
            old(self).wf(),
        ensures
            final(self).wf(),
            final(self)@ == old(self)@.filter(|id: u64| id >= compacted_id),
            match plan {
                Ok(plan) => {
                    &&& meta.file_id >= compacted_id
                    &&& plan.evicted@.to_set() == old(self)@.filter(|id: u64| id < compacted_id)
                    &&& strictly_ascending(plan.evicted@)
                    &&& plan.open == !old(self)@.contains(meta.file_id)
                    &&& plan.file_id == meta.file_id
                    &&& plan.position == meta.position
                    &&& plan.size == meta.size
                },
                Err(e) => e is LogFileNotFound && meta.file_id < compacted_id,
            },
    {
        let evicted = self.remove_stale_log(compacted_id);
        if meta.file_id < compacted_id {
            return Err(KvsError::LogFileNotFound);
        }
        let open = !self.is_open(meta.file_id);
        Ok(ReadPlan { evicted, open, file_id: meta.file_id, position: meta.position, size: meta.size })
    }

    /// The value in the bytes that were read for `get`: the bytes of one
    /// record, which has to be a `Put`.
    ///
    /// Bytes that are not one JSON value, or whose value is no record, are
    /// refused with `SerdeError`; a record with an unknown tag, and a
    /// `Remove` record, with `UnknownCommand`.
    pub fn read_value(bytes: &[u8]) -> (value: Result<Option<String>, KvsError>)
        ensures
            match json_document(bytes@) {
                Some(json) => match record_of(json) {
                    Ok(Record::Put { value: v, .. }) => value matches Ok(Some(s)) && s@ == v,
                    Ok(Record::Remove { .. }) => value matches Err(e) && e is UnknownCommand,
                    Err(Refusal::UnknownTag) => value matches Err(e) && e is UnknownCommand,
                    Err(Refusal::Malformed) => value matches Err(e) && e is SerdeError,
                },
                None => value matches Err(e) && e is SerdeError,
            },
    {
        let json = match parse_json_document(bytes) {
            Ok(json) => json,
            Err(e) => {
                return Err(KvsError::SerdeError(e));
            },
        };
        match Command::from_json(&json) {
            Ok(record) => StableLog::get_value(record),
            Err(e) => Err(e),
        }
    }

    /// The value that a record read for `get` carries.
    ///
    /// The key directory points at `Put` records only: any other record at
    /// that place is refused with `UnknownCommand`.
    pub fn get_value(record: Command) -> (value: Result<Option<String>, KvsError>)
        ensures
            match record {
                Command::Put { value: v, .. } => value == Ok::<Option<String>, KvsError>(Some(v)),
                Command::Remove { .. } => value matches Err(e) && e is UnknownCommand,
            },
    {
        match record {
            Command::Put { value, .. } => Ok(Some(value)),
            Command::Remove { .. } => Err(KvsError::UnknownCommand),
        }
    }
}

/// What is left of ascending ids after filtering ascends.
proof fn lemma_filter_ascending(ids: Seq<u64>, keep: spec_fn(u64) -> bool)
    requires
        strictly_ascending(ids),
    ensures
        strictly_ascending(ids.filter(keep)),
        forall|i: int| 0 <= i < ids.filter(keep).len() ==> ids.contains(#[trigger] ids.filter(keep)[i]),
        ids.len() > 0 ==> forall|i: int|
            0 <= i < ids.filter(keep).len() ==> (#[trigger] ids.filter(keep)[i]) <= ids.last(),
    decreases ids.len(),
{
    reveal(Seq::filter);
    if ids.len() > 0 {
        let head = ids.drop_last();
        lemma_filter_ascending(head, keep);
        let filtered = ids.filter(keep);
        assert forall|i: int| 0 <= i < filtered.len() implies ids.contains(#[trigger] filtered[i])
            && filtered[i] <= ids.last() by {
            if i < head.filter(keep).len() {
                assert(head.contains(head.filter(keep)[i]));
                let k = choose|k: int| 0 <= k < head.len() && head[k] == head.filter(keep)[i];
                assert(ids[k] == filtered[i]);
                if k < ids.len() - 1 {
                    assert(ids[k] < ids[ids.len() - 1]);
                }
            } else {
                assert(filtered[i] == ids.last());
                assert(ids[ids.len() - 1] == filtered[i]);
            }
        }
        assert forall|i: int, j: int| 0 <= i < j < filtered.len() implies filtered[i] < filtered[j] by {
            if j < head.filter(keep).len() {
            } else {
                assert(head.contains(head.filter(keep)[i]));
                let k = choose|k: int| 0 <= k < head.len() && head[k] == head.filter(keep)[i];
                assert(ids[k] < ids[ids.len() - 1]);
            }
        }
    }
}

/// The set of the filtered ids is the filtered set of the ids.
proof fn lemma_filter_to_set(ids: Seq<u64>, keep: spec_fn(u64) -> bool)
    ensures
        ids.filter(keep).to_set() =~= ids.to_set().filter(keep),
    decreases ids.len(),
{
    reveal(Seq::filter);
    if ids.len() > 0 {
        let head = ids.drop_last();
        lemma_filter_to_set(head, keep);
        let filtered = ids.filter(keep);
        assert forall|id: u64| filtered.to_set().contains(id) <==> ids.to_set().filter(keep).contains(
            id,
        ) by {
            if filtered.contains(id) {
                let k = choose|k: int| 0 <= k < filtered.len() && filtered[k] == id;
                if k < head.filter(keep).len() {
                    assert(head.filter(keep)[k] == id);
                    assert(head.filter(keep).to_set().contains(id));
                    assert(head.contains(id));
                    let h = choose|h: int| 0 <= h < head.len() && head[h] == id;
                    assert(ids[h] == id);
                } else {
                    assert(ids[ids.len() - 1] == id);
                }
            }
            if ids.contains(id) && keep(id) {
                let h = choose|h: int| 0 <= h < ids.len() && ids[h] == id;
                if h < ids.len() - 1 {
                    assert(head[h] == id);
                    assert(head.to_set().filter(keep).contains(id));
                    assert(head.filter(keep).contains(id));
                    let k = choose|k: int| 0 <= k < head.filter(keep).len() && head.filter(keep)[k] == id;
                    assert(filtered[k] == id);
                } else {
                    assert(filtered[filtered.len() - 1] == id);
                }
            }
        }
    } else {
        assert(ids.filter(keep).to_set() =~= Set::empty());
        assert(ids.to_set().filter(keep) =~= Set::empty());
    }
}

} // verus!
