//! The registry of background activities shown by the web UI, and the poll
//! buffer that replays server messages to polling clients.

use std::sync::atomic::AtomicBool;
use std::sync::Arc;
use vstd::prelude::*;

use crate::records::ActivityRecord;
use crate::signal::raise;
use crate::text::{
    chars_of, eq_str, join_strings, join_with, split, split_exec, string_of, string_views, views,
};

verus! {

/// How many finished and running activities the registry keeps.
pub const HISTORY: usize = 200;

/// How many log lines each activity keeps.
pub const LOG_LINES: usize = 500;

/// How many failures of one key block automatic retries.
pub const MAX_ATTEMPTS: u32 = 2;

/// How many messages the poll buffer keeps.
pub const POLL_CAPACITY: usize = 512;

/// The public description of one activity.
#[derive(Debug)]
pub struct TaskEntry {
    pub id: u64,
    pub label: String,
    pub kind: String,
    pub status: String,
    pub started_at: i64,
    pub finished_at: Option<i64>,
    pub cancellable: bool,
}

impl TaskEntry {
    /// A field-for-field copy.
    pub fn copy(&self) -> (r: TaskEntry)
        ensures
            r == *self,
    {
        TaskEntry {
            id: self.id,
            label: self.label.clone(),
            kind: self.kind.clone(),
            status: self.status.clone(),
            started_at: self.started_at,
            finished_at: self.finished_at,
            cancellable: self.cancellable,
        }
    }
}

/// One activity with its deduplication key, log and cancellation flag.
pub struct TaskRecord {
    pub entry: TaskEntry,
    pub key: String,
    pub log: Vec<String>,
    pub cancel: Option<Arc<AtomicBool>>,
}

/// Why an activity could not be started.
#[derive(Debug)]
pub enum BeginError {
    /// An activity with the same key is already running.
    Running { id: u64, label: String },
    /// The key failed too often and is not retried automatically.
    Blocked { message: String },
}

/// The activity registry.
pub struct TaskRegistry {
    pub next_id: u64,
    pub records: Vec<TaskRecord>,
    pub failures: Vec<(String, u32)>,
}

// ---------------------------------------------------------------------------
// Model
// ---------------------------------------------------------------------------

/// The first index below `n` whose record has id `id`, or `-1`.
pub open spec fn first_with_id(recs: Seq<TaskRecord>, id: u64, n: int) -> int
    decreases n,
{
    if n <= 0 {
        -1
    } else {
        let r = first_with_id(recs, id, n - 1);
        if r >= 0 {
            r
        } else if recs[n - 1].entry.id == id {
            n - 1
        } else {
            -1
        }
    }
}

/// The index of the first record with id `id`, or `-1`.
pub open spec fn index_of_id(recs: Seq<TaskRecord>, id: u64) -> int {
    first_with_id(recs, id, recs.len() as int)
}

/// The record is running and carries `key`.
pub open spec fn running_with_key(r: TaskRecord, key: Seq<char>) -> bool {
    r.entry.status@ == "running"@ && r.key@ == key
}

/// The first index below `n` of a running record with key `key`, or `-1`.
pub open spec fn first_running_key(recs: Seq<TaskRecord>, key: Seq<char>, n: int) -> int
    decreases n,
{
    if n <= 0 {
        -1
    } else {
        let r = first_running_key(recs, key, n - 1);
        if r >= 0 {
            r
        } else if running_with_key(recs[n - 1], key) {
            n - 1
        } else {
            -1
        }
    }
}

/// The index of the first running record with key `key`, or `-1`.
pub open spec fn index_of_running_key(recs: Seq<TaskRecord>, key: Seq<char>) -> int {
    first_running_key(recs, key, recs.len() as int)
}

/// The failure count recorded for `key` (the last entry for it wins).
pub open spec fn failure_lookup(f: Seq<(String, u32)>, key: Seq<char>) -> Option<u32>
    decreases f.len(),
{
    if f.len() == 0 {
        None
    } else if f.last().0@ == key {
        Some(f.last().1)
    } else {
        failure_lookup(f.drop_last(), key)
    }
}

/// The kinds of activity that run BitBake.
pub open spec fn is_bitbake_kind(kind: Seq<char>) -> bool {
    kind == "metadata"@ || kind == "deptree"@ || kind == "plan"@ || kind == "layout"@
}

/// The record is running, cancellable, and counted by `cancel_all_running_tasks`.
pub open spec fn cancellable_running(r: TaskRecord) -> bool {
    r.entry.status@ == "running"@ && r.cancel is Some
}

/// The record is a running, cancellable BitBake activity.
pub open spec fn cancellable_bitbake(r: TaskRecord) -> bool {
    cancellable_running(r) && is_bitbake_kind(r.entry.kind@)
}

/// The number of records of `recs` that satisfy `p`.
pub open spec fn count_where(recs: Seq<TaskRecord>, p: spec_fn(TaskRecord) -> bool) -> nat
    decreases recs.len(),
{
    if recs.len() == 0 {
        0
    } else {
        count_where(recs.drop_last(), p) + if p(recs.last()) {
            1nat
        } else {
            0nat
        }
    }
}

/// How many elements a bounded queue drops after an append that makes its
/// length `len`.
pub open spec fn overflow(len: nat, cap: nat) -> int {
    if len > cap {
        len - cap
    } else {
        0
    }
}

/// The message given when a key failed too often.
pub open spec fn blocked_message(label: Seq<char>) -> Seq<char> {
    "'"@ + label + "' failed 2 times; not retrying automatically. Use refresh to try again."@
}

impl TaskRegistry {
    /// Every record's id is at most the last id handed out.
    pub open spec fn ids_bounded(&self) -> bool {
        forall|i: int| 0 <= i < self.records@.len() ==> self.records@[i].entry.id <= self.next_id
    }

    /// An empty registry.
    pub fn new() -> (r: TaskRegistry)
        ensures
            r.next_id == 0,
            r.records@.len() == 0,
            r.failures@.len() == 0,
            r.ids_bounded(),
    {
        TaskRegistry { next_id: 0, records: Vec::new(), failures: Vec::new() }
    }

    /// The entries, newest first.
    pub fn snapshot(&self) -> (r: Vec<TaskEntry>)
        ensures
            r@.len() == self.records@.len(),
            forall|i: int|
                0 <= i < r@.len() ==> r@[i] == self.records@[self.records@.len() - 1 - i].entry,
    {
        let mut out: Vec<TaskEntry> = Vec::new();
        let mut i = self.records.len();
        while i > 0
            invariant
                i <= self.records@.len(),
                out@.len() == self.records@.len() - i,
                forall|j: int|
                    0 <= j < out@.len() ==> out@[j] == self.records@[self.records@.len() - 1
                        - j].entry,
            decreases i,
        {
            out.push(self.records[i - 1].entry.copy());
            i = i - 1;
        }
        out
    }

    /// The index of the first record with id `id`.
    fn find_index(&self, id: u64) -> (r: Option<usize>)
        ensures
            match r {
                Some(i) => i as int == index_of_id(self.records@, id) && i < self.records@.len(),
                None => index_of_id(self.records@, id) == -1,
            },
    {
        let mut i: usize = 0;
        while i < self.records.len()
            invariant
                i <= self.records@.len(),
                first_with_id(self.records@, id, i as int) == -1,
            decreases self.records@.len() - i,
        {
            if self.records[i].entry.id == id {
                proof {
                    lemma_first_with_id_stable(self.records@, id, i + 1, self.records@.len() as int);
                }
                return Some(i);
            }
            i = i + 1;
        }
        None
    }

    /// Starts an activity: records it as running under a fresh id, keeping
    /// at most `HISTORY` records.
    pub fn begin_task(
        &mut self,
        label: String,
        kind: &str,
        key: &str,
        cancel: Option<Arc<AtomicBool>>,
        started_at: i64,
    ) -> (id: u64)
        requires
            old(self).next_id < u64::MAX,
        ensures
            id == old(self).next_id + 1,
            final(self).next_id == id,
            final(self).failures == old(self).failures,
            final(self).records@.len() > 0,
            final(self).records@.len() <= HISTORY,
            final(self).records@ == old(self).records@.push(final(self).records@.last()).skip(
                overflow(old(self).records@.len() + 1, HISTORY as nat),
            ),
            final(self).records@.last().entry == (TaskEntry {
                id,
                label,
                kind: final(self).records@.last().entry.kind,
                status: final(self).records@.last().entry.status,
                started_at,
                finished_at: None,
                cancellable: cancel is Some,
            }),
            final(self).records@.last().entry.kind@ == kind@,
            final(self).records@.last().entry.status@ == "running"@,
            final(self).records@.last().key@ == key@,
            final(self).records@.last().log@.len() == 0,
            final(self).records@.last().cancel == cancel,
            old(self).ids_bounded() ==> final(self).ids_bounded(),
    {
        self.next_id = self.next_id + 1;
        let id = self.next_id;
        let cancellable = cancel.is_some();
        let record = TaskRecord {
            entry: TaskEntry {
                id,
                label,
                kind: String::from_str(kind),
                status: String::from_str("running"),
                started_at,
                finished_at: None,
                cancellable,
            },
            key: String::from_str(key),
            log: Vec::new(),
            cancel,
        };
        let ghost pushed = self.records@.push(record);
        self.records.push(record);
        let ghost mut dropped: int = 0;
        while self.records.len() > HISTORY
            invariant
                self.records@ == pushed.skip(dropped),
                0 <= dropped <= overflow(pushed.len(), HISTORY as nat),
                self.records@.len() + dropped == pushed.len(),
                self.next_id == id,
                self.failures == old(self).failures,
            decreases self.records@.len(),
        {
            self.records.remove(0);
            proof {
                dropped = dropped + 1;
            }
            assert(self.records@ =~= pushed.skip(dropped));
        }
        assert(self.records@.last() == record);
        proof {
            if old(self).ids_bounded() {
                assert forall|i: int| 0 <= i < self.records@.len() implies self.records@[i].entry.id
                    <= self.next_id by {
                    assert(self.records@[i] == pushed[i + dropped]);
                }
            }
        }
        id
    }

    /// The id and label of the first running activity with key `key`.
    pub fn running_task_for_key(&self, key: &str) -> (r: Option<(u64, String)>)
        ensures
            match r {
                Some((id, label)) => {
                    let i = index_of_running_key(self.records@, key@);
                    &&& 0 <= i < self.records@.len()
                    &&& id == self.records@[i].entry.id
                    &&& label == self.records@[i].entry.label
                },
                None => index_of_running_key(self.records@, key@) == -1,
            },
    {
        let k = String::from_str(key);
        let mut i: usize = 0;
        while i < self.records.len()
            invariant
                i <= self.records@.len(),
                k@ == key@,
                first_running_key(self.records@, key@, i as int) == -1,
            decreases self.records@.len() - i,
        {
            let rec = &self.records[i];
            if eq_str(&rec.entry.status, "running") && rec.key == k {
                proof {
                    lemma_first_running_key_stable(
                        self.records@,
                        key@,
                        i + 1,
                        self.records@.len() as int,
                    );
                }
                return Some((rec.entry.id, rec.entry.label.clone()));
            }
            i = i + 1;
        }
        None
    }

    /// The failure count recorded for `key`.
    pub fn failure_count(&self, key: &str) -> (r: Option<u32>)
        ensures
            r == failure_lookup(self.failures@, key@),
    {
        let k = String::from_str(key);
        let mut i = self.failures.len();
        assert(self.failures@.take(self.failures@.len() as int) =~= self.failures@);
        while i > 0
            invariant
                i <= self.failures@.len(),
                k@ == key@,
                failure_lookup(self.failures@, key@) == failure_lookup(
                    self.failures@.take(i as int),
                    key@,
                ),
            decreases i,
        {
            let ghost pre = self.failures@.take(i as int);
            assert(pre.drop_last() =~= self.failures@.take(i - 1));
            assert(pre.last() == self.failures@[i - 1]);
            if self.failures[i - 1].0 == k {
                return Some(self.failures[i - 1].1);
            }
            i = i - 1;
        }
        None
    }

    /// Whether `key` has failed at least `MAX_ATTEMPTS` times.
    pub fn failed_too_often(&self, key: &str) -> (r: bool)
        ensures
            r == (failure_lookup(self.failures@, key@) matches Some(c) && c >= MAX_ATTEMPTS),
    {
        match self.failure_count(key) {
            Some(count) => count >= MAX_ATTEMPTS,
            None => false,
        }
    }

    /// Forgets the failures recorded for `key`.
    pub fn clear_failures(&mut self, key: &str)
        ensures
            failure_lookup(final(self).failures@, key@) is None,
            forall|k: Seq<char>|
                k != key@ ==> failure_lookup(final(self).failures@, k) == failure_lookup(
                    old(self).failures@,
                    k,
                ),
            final(self).records == old(self).records,
            final(self).next_id == old(self).next_id,
    {
        let k = String::from_str(key);
        let mut kept: Vec<(String, u32)> = Vec::new();
        let mut i: usize = 0;
        while i < self.failures.len()
            invariant
                i <= self.failures@.len(),
                k@ == key@,
                self.failures == old(self).failures,
                failure_lookup(kept@, key@) is None,
                forall|q: Seq<char>|
                    q != key@ ==> failure_lookup(kept@, q) == failure_lookup(
                        self.failures@.take(i as int),
                        q,
                    ),
            decreases self.failures@.len() - i,
        {
            let ghost before = kept@;
            let keep = !(self.failures[i].0 == k);
            if keep {
                kept.push((self.failures[i].0.clone(), self.failures[i].1));
            }
            let ghost step = self.failures@.take(i + 1);
            assert(step.drop_last() =~= self.failures@.take(i as int));
            assert(step.last() == self.failures@[i as int]);
            proof {
                if keep {
                    assert(kept@.drop_last() =~= before);
                    assert(kept@.last() == self.failures@[i as int]);
                } else {
                    assert(kept@ == before);
                }
                assert forall|q: Seq<char>| q != key@ implies failure_lookup(kept@, q)
                    == failure_lookup(step, q) by {
                    if keep {
                        assert(failure_lookup(kept@, q) == if kept@.last().0@ == q {
                            Some(kept@.last().1)
                        } else {
                            failure_lookup(before, q)
                        });
                    }
                }
            }
            i = i + 1;
        }
        assert(self.failures@.take(self.failures@.len() as int) =~= self.failures@);
        self.failures = kept;
    }

    /// Counts one more failure of `key`.
    pub fn record_failure(&mut self, key: &str)
        ensures
            failure_lookup(final(self).failures@, key@) == Some(
                (match failure_lookup(old(self).failures@, key@) {
                    Some(c) => c,
                    None => 0u32,
                }).wrapping_add(1),
            ),
            forall|k: Seq<char>|
                k != key@ ==> failure_lookup(final(self).failures@, k) == failure_lookup(
                    old(self).failures@,
                    k,
                ),
            final(self).records == old(self).records,
            final(self).next_id == old(self).next_id,
    {
        let previous = match self.failure_count(key) {
            Some(c) => c,
            None => 0,
        };
        self.clear_failures(key);
        let ghost cleared = self.failures@;
        self.failures.push((String::from_str(key), previous.wrapping_add(1)));
        assert(self.failures@.drop_last() =~= cleared);
    }

    /// Starts an activity unless one with the same key is running or the key
    /// failed too often. `force` clears the key's failures and cancels a
    /// running activity with the same key first.
    pub fn try_begin(
        &mut self,
        label: String,
        kind: &str,
        key: &str,
        cancel: Option<Arc<AtomicBool>>,
        force: bool,
        started_at: i64,
    ) -> (r: Result<u64, BeginError>)
        requires
            old(self).next_id < u64::MAX,
        ensures
            ({
                let blocked = !force && (failure_lookup(old(self).failures@, key@) matches Some(
                    c,
                ) && c >= MAX_ATTEMPTS);
                let running = index_of_running_key(old(self).records@, key@);
                match r {
                    Ok(id) => {
                        &&& !blocked
                        &&& (force || running == -1)
                        &&& id == old(self).next_id + 1
                        &&& final(self).next_id == id
                        &&& final(self).records@.last().entry.id == id
                        &&& final(self).records@.last().entry.label == label
                        &&& final(self).records@.last().entry.status@ == "running"@
                        &&& final(self).records@.last().key@ == key@
                        &&& final(self).records@.len() <= HISTORY
                    },
                    Err(BeginError::Blocked { message }) => {
                        &&& blocked
                        &&& message@ == blocked_message(label@)
                        &&& *final(self) == *old(self)
                    },
                    Err(BeginError::Running { id, label: running_label }) => {
                        &&& !blocked
                        &&& !force
                        &&& 0 <= running < old(self).records@.len()
                        &&& id == old(self).records@[running].entry.id
                        &&& running_label == old(self).records@[running].entry.label
                        &&& *final(self) == *old(self)
                    },
                }
            }),
            force ==> r is Ok,
            force ==> failure_lookup(final(self).failures@, key@) is None,
            old(self).ids_bounded() ==> final(self).ids_bounded(),
    {
        if force {
            self.clear_failures(key);
        } else if self.failed_too_often(key) {
            let mut message = String::from_str("'");
            message.append(label.as_str());
            message.append("' failed 2 times; not retrying automatically. Use refresh to try again.");
            return Err(BeginError::Blocked { message });
        }
        match self.running_task_for_key(key) {
            Some((id, existing)) => {
                if !force {
                    return Err(BeginError::Running { id, label: existing });
                }
                self.cancel_task(id);
            },
            None => {},
        }
        Ok(self.begin_task(label, kind, key, cancel, started_at))
    }

    /// Joins a record's log lines with `\n`.
    fn joined_log(log: &Vec<String>) -> (r: String)
        ensures
            r@ == join_with(string_views(log@), "\n"@),
    {
        join_strings(log, "\n")
    }

    /// Finishes the activity `id` with `status`: it is no longer cancellable,
    /// and a keyed activity's failures are counted (`failed`) or cleared
    /// (any other status). Returns the activity's log joined with `\n`, or
    /// `None` when no activity has that id.
    pub fn end_task(&mut self, id: u64, status: &str, finished_at: i64) -> (r: Option<String>)
        ensures
            ({
                let i = index_of_id(old(self).records@, id);
                if i < 0 {
                    &&& r is None
                    &&& *final(self) == *old(self)
                } else {
                    let old_rec = old(self).records@[i];
                    let new_rec = final(self).records@[i];
                    &&& r matches Some(text) && text@ == join_with(string_views(old_rec.log@), "\n"@)
                    &&& final(self).records@.len() == old(self).records@.len()
                    &&& forall|j: int|
                        0 <= j < old(self).records@.len() && j != i ==> final(self).records@[j]
                            == old(self).records@[j]
                    &&& new_rec.entry.id == old_rec.entry.id
                    &&& new_rec.entry.label == old_rec.entry.label
                    &&& new_rec.entry.kind == old_rec.entry.kind
                    &&& new_rec.entry.status@ == status@
                    &&& new_rec.entry.started_at == old_rec.entry.started_at
                    &&& new_rec.entry.finished_at == Some(finished_at)
                    &&& !new_rec.entry.cancellable
                    &&& new_rec.cancel is None
                    &&& new_rec.key == old_rec.key
                    &&& new_rec.log == old_rec.log
                    &&& final(self).next_id == old(self).next_id
                    &&& if old_rec.key@.len() == 0 {
                        final(self).failures == old(self).failures
                    } else if status@ == "failed"@ {
                        &&& failure_lookup(final(self).failures@, old_rec.key@) == Some(
                            (match failure_lookup(old(self).failures@, old_rec.key@) {
                                Some(c) => c,
                                None => 0u32,
                            }).wrapping_add(1),
                        )
                        &&& forall|k: Seq<char>|
                            k != old_rec.key@ ==> failure_lookup(final(self).failures@, k)
                                == failure_lookup(old(self).failures@, k)
                    } else {
                        &&& failure_lookup(final(self).failures@, old_rec.key@) is None
                        &&& forall|k: Seq<char>|
                            k != old_rec.key@ ==> failure_lookup(final(self).failures@, k)
                                == failure_lookup(old(self).failures@, k)
                    }
                }
            }),
            old(self).ids_bounded() ==> final(self).ids_bounded(),
    {
        let found = self.find_index(id);
        let i = match found {
            Some(i) => i,
            None => {
                return None;
            },
        };
        let mut rec = self.records.remove(i);
        let ghost old_rec = rec;
        let text = Self::joined_log(&rec.log);
        rec.entry.status = String::from_str(status);
        rec.entry.finished_at = Some(finished_at);
        rec.entry.cancellable = false;
        rec.cancel = None;
        let key = rec.key.clone();
        self.records.insert(i, rec);
        assert forall|j: int| 0 <= j < old(self).records@.len() && j != i implies self.records@[j]
            == old(self).records@[j] by {}
        if key.as_str().unicode_len() > 0 {
            if eq_str(&String::from_str(status), "failed") {
                self.record_failure(key.as_str());
            } else {
                self.clear_failures(key.as_str());
            }
        }
        proof {
            if old(self).ids_bounded() {
                assert forall|j: int| 0 <= j < self.records@.len() implies self.records@[j].entry.id
                    <= self.next_id by {
                    if j != i {
                        assert(self.records@[j] == old(self).records@[j]);
                    }
                }
            }
        }
        Some(text)
    }

    /// Appends a line to the log of activity `id`, keeping the last
    /// `LOG_LINES` lines. Returns whether the activity exists.
    pub fn append_task_log(&mut self, id: u64, line: &str) -> (r: bool)
        ensures
            ({
                let i = index_of_id(old(self).records@, id);
                if i < 0 {
                    &&& !r
                    &&& *final(self) == *old(self)
                } else {
                    let old_log = string_views(old(self).records@[i].log@).push(line@);
                    &&& r
                    &&& final(self).records@.len() == old(self).records@.len()
                    &&& forall|j: int|
                        0 <= j < old(self).records@.len() && j != i ==> final(self).records@[j]
                            == old(self).records@[j]
                    &&& final(self).records@[i].entry == old(self).records@[i].entry
                    &&& final(self).records@[i].key == old(self).records@[i].key
                    &&& final(self).records@[i].cancel == old(self).records@[i].cancel
                    &&& string_views(final(self).records@[i].log@) == old_log.skip(
                        overflow(old_log.len(), LOG_LINES as nat),
                    )
                    &&& final(self).records@[i].log@.len() <= LOG_LINES
                    &&& final(self).next_id == old(self).next_id
                    &&& final(self).failures == old(self).failures
                }
            }),
            old(self).ids_bounded() ==> final(self).ids_bounded(),
    {
        let i = match self.find_index(id) {
            Some(i) => i,
            None => {
                return false;
            },
        };
        let mut rec = self.records.remove(i);
        let ghost old_rec = rec;
        let ghost pushed = string_views(rec.log@).push(line@);
        rec.log.push(String::from_str(line));
        assert(string_views(rec.log@) =~= pushed);
        let ghost mut dropped: int = 0;
        while rec.log.len() > LOG_LINES
            invariant
                string_views(rec.log@) == pushed.skip(dropped),
                0 <= dropped <= overflow(pushed.len(), LOG_LINES as nat),
                rec.log@.len() + dropped == pushed.len(),
                rec.entry == old_rec.entry,
                rec.key == old_rec.key,
                rec.cancel == old_rec.cancel,
                old_rec == old(self).records@[i as int],
                i < old(self).records@.len(),
                self.records@ == old(self).records@.remove(i as int),
                self.next_id == old(self).next_id,
                self.failures == old(self).failures,
            decreases rec.log@.len(),
        {
            let ghost prev = rec.log@;
            rec.log.remove(0);
            assert(rec.log@ =~= prev.drop_first());
            assert(rec.entry == old_rec.entry);
            assert(string_views(rec.log@) =~= string_views(prev).drop_first());
            proof {
                dropped = dropped + 1;
            }
            assert(string_views(rec.log@) =~= pushed.skip(dropped));
        }
        self.records.insert(i, rec);
        assert(self.records@[i as int].entry == old(self).records@[i as int].entry);
        assert forall|j: int| 0 <= j < old(self).records@.len() && j != i implies self.records@[j]
            == old(self).records@[j] by {}
        proof {
            if old(self).ids_bounded() {
                assert forall|j: int| 0 <= j < self.records@.len() implies self.records@[j].entry.id
                    <= self.next_id by {
                    if j != i {
                        assert(self.records@[j] == old(self).records@[j]);
                    } else {
                        assert(old(self).records@[j].entry.id <= old(self).next_id);
                    }
                }
            }
        }
        true
    }

    /// Raises the cancellation flag of activity `id`. Returns whether it has one.
    pub fn cancel_task(&self, id: u64) -> (r: bool)
        ensures
            r == (index_of_id(self.records@, id) >= 0 && self.records@[index_of_id(
                self.records@,
                id,
            )].cancel is Some),
    {
        match self.find_index(id) {
            Some(i) => match &self.records[i].cancel {
                Some(flag) => {
                    raise(flag);
                    true
                },
                None => false,
            },
            None => false,
        }
    }

    /// Raises the flags of every running, cancellable activity; returns how many.
    pub fn cancel_all_running_tasks(&self) -> (r: usize)
        ensures
            r == count_where(self.records@, |rec: TaskRecord| cancellable_running(rec)),
    {
        let mut cancelled: usize = 0;
        let mut i: usize = 0;
        while i < self.records.len()
            invariant
                i <= self.records@.len(),
                cancelled == count_where(
                    self.records@.take(i as int),
                    |rec: TaskRecord| cancellable_running(rec),
                ),
                cancelled <= i,
            decreases self.records@.len() - i,
        {
            let ghost pre = self.records@.take(i + 1);
            assert(pre.drop_last() =~= self.records@.take(i as int));
            let rec = &self.records[i];
            if eq_str(&rec.entry.status, "running") {
                match &rec.cancel {
                    Some(flag) => {
                        raise(flag);
                        cancelled = cancelled + 1;
                    },
                    None => {},
                }
            }
            i = i + 1;
        }
        assert(self.records@.take(self.records@.len() as int) =~= self.records@);
        cancelled
    }

    /// Raises the flags of every running, cancellable BitBake activity;
    /// returns how many.
    pub fn cancel_bitbake_activities(&self) -> (r: usize)
        ensures
            r == count_where(self.records@, |rec: TaskRecord| cancellable_bitbake(rec)),
    {
        let mut cancelled: usize = 0;
        let mut i: usize = 0;
        while i < self.records.len()
            invariant
                i <= self.records@.len(),
                cancelled == count_where(
                    self.records@.take(i as int),
                    |rec: TaskRecord| cancellable_bitbake(rec),
                ),
                cancelled <= i,
            decreases self.records@.len() - i,
        {
            let ghost pre = self.records@.take(i + 1);
            assert(pre.drop_last() =~= self.records@.take(i as int));
            let rec = &self.records[i];
            if eq_str(&rec.entry.status, "running") && is_bitbake_kind_exec(&rec.entry.kind) {
                match &rec.cancel {
                    Some(flag) => {
                        raise(flag);
                        cancelled = cancelled + 1;
                    },
                    None => {},
                }
            }
            i = i + 1;
        }
        assert(self.records@.take(self.records@.len() as int) =~= self.records@);
        cancelled
    }

    /// Whether a BitBake activity is running.
    pub fn bitbake_activity_running(&self) -> (r: bool)
        ensures
            r == exists|i: int|
                0 <= i < self.records@.len() && self.records@[i].entry.status@ == "running"@
                    && is_bitbake_kind(#[trigger] self.records@[i].entry.kind@),
    {
        let mut i: usize = 0;
        while i < self.records.len()
            invariant
                i <= self.records@.len(),
                forall|j: int|
                    0 <= j < i ==> !(self.records@[j].entry.status@ == "running"@
                        && is_bitbake_kind(#[trigger] self.records@[j].entry.kind@)),
            decreases self.records@.len() - i,
        {
            let rec = &self.records[i];
            if eq_str(&rec.entry.status, "running") && is_bitbake_kind_exec(&rec.entry.kind) {
                return true;
            }
            i = i + 1;
        }
        false
    }

    /// The entry and log of activity `id`.
    pub fn task_detail(&self, id: u64) -> (r: Option<(TaskEntry, Vec<String>)>)
        ensures
            ({
                let i = index_of_id(self.records@, id);
                match r {
                    Some((entry, log)) => 0 <= i && entry == self.records@[i].entry && log@
                        == self.records@[i].log@,
                    None => i == -1,
                }
            }),
    {
        match self.find_index(id) {
            Some(i) => {
                let rec = &self.records[i];
                Some((rec.entry.copy(), copy_strings(&rec.log)))
            },
            None => None,
        }
    }

    /// Restores finished activities from the statistics database, in the
    /// given order, raising the next id to the largest restored id.
    pub fn load_activity_history(&mut self, history: Vec<ActivityRecord>)
        ensures
            final(self).records@.len() == old(self).records@.len() + history@.len(),
            forall|j: int|
                0 <= j < old(self).records@.len() ==> final(self).records@[j] == old(
                    self,
                ).records@[j],
            forall|j: int|
                0 <= j < history@.len() ==> {
                    let rec = #[trigger] final(self).records@[old(self).records@.len() + j];
                    let src = history@[j];
                    &&& rec.entry.id == src.id as u64
                    &&& rec.entry.label == src.label
                    &&& rec.entry.kind == src.kind
                    &&& rec.entry.status == src.status
                    &&& rec.entry.started_at == src.started_at
                    &&& rec.entry.finished_at == src.finished_at
                    &&& !rec.entry.cancellable
                    &&& rec.key@.len() == 0
                    &&& rec.cancel is None
                    &&& string_views(rec.log@) == match src.log {
                        Some(text) => if text@.len() > 0 {
                            split(text@, "\n"@)
                        } else {
                            Seq::empty()
                        },
                        None => Seq::empty(),
                    }
                    &&& rec.entry.id <= final(self).next_id
                },
            final(self).next_id == restored_next_id(old(self).next_id, history@),
            final(self).failures == old(self).failures,
            old(self).ids_bounded() ==> final(self).ids_bounded(),
    {
        let ghost start = self.records@;
        let newline = chars_of("\n");
        proof {
            reveal_strlit("\n");
        }
        let mut k: usize = 0;
        let ghost hist = history@;
        // restore in order
        while k < history.len()
            invariant
                history@ == hist,
                k <= hist.len(),
                newline@ == "\n"@,
                newline@.len() == 1,
                self.records@.len() == start.len() + k,
                forall|j: int| 0 <= j < start.len() ==> self.records@[j] == start[j],
                forall|j: int|
                    0 <= j < k ==> {
                        let rec = #[trigger] self.records@[start.len() + j];
                        let src = hist[j];
                        &&& rec.entry.id == src.id as u64
                        &&& rec.entry.label == src.label
                        &&& rec.entry.kind == src.kind
                        &&& rec.entry.status == src.status
                        &&& rec.entry.started_at == src.started_at
                        &&& rec.entry.finished_at == src.finished_at
                        &&& !rec.entry.cancellable
                        &&& rec.key@.len() == 0
                        &&& rec.cancel is None
                        &&& string_views(rec.log@) == match src.log {
                            Some(text) => if text@.len() > 0 {
                                split(text@, "\n"@)
                            } else {
                                Seq::empty()
                            },
                            None => Seq::empty(),
                        }
                        &&& rec.entry.id <= self.next_id
                    },
                self.next_id >= old(self).next_id,
                self.next_id == restored_next_id(old(self).next_id, hist.take(k as int)),
                self.failures == old(self).failures,
                old(self).ids_bounded() ==> self.ids_bounded(),
            decreases hist.len() - k,
        {
            assert(hist.take(k + 1).drop_last() =~= hist.take(k as int));
            assert(hist.take(k + 1).last() == hist[k as int]);
            let src = &history[k];
            let id = src.id as u64;
            if id > self.next_id {
                self.next_id = id;
            }
            let mut log: Vec<String> = Vec::new();
            match &src.log {
                Some(text) => {
                    if text.as_str().unicode_len() > 0 {
                        let chars = chars_of(text.as_str());
                        let parts = split_exec(&chars, &newline);
                        let mut p: usize = 0;
                        while p < parts.len()
                            invariant
                                p <= parts@.len(),
                                string_views(log@) == views(parts@).take(p as int),
                            decreases parts@.len() - p,
                        {
                            let ghost before = log@;
                            let line = string_of(&parts[p]);
                            log.push(line);
                            assert(string_views(log@) =~= string_views(before).push(line@));
                            assert(views(parts@).take(p + 1) =~= views(parts@).take(p as int).push(
                                parts@[p as int]@,
                            ));
                            p = p + 1;
                            assert(string_views(log@) =~= views(parts@).take(p as int));
                        }
                        assert(views(parts@).take(parts@.len() as int) =~= views(parts@));
                    } else {
                        assert(string_views(log@) =~= Seq::<Seq<char>>::empty());
                    }
                },
                None => {
                    assert(string_views(log@) =~= Seq::<Seq<char>>::empty());
                },
            }
            let record = TaskRecord {
                entry: TaskEntry {
                    id,
                    label: src.label.clone(),
                    kind: src.kind.clone(),
                    status: src.status.clone(),
                    started_at: src.started_at,
                    finished_at: src.finished_at,
                    cancellable: false,
                },
                key: String::new(),
                log,
                cancel: None,
            };
            self.records.push(record);
            k = k + 1;
        }
        assert(hist.take(hist.len() as int) =~= hist);
    }
}

/// The next activity id after restoring `history` onto `next`: the
/// largest of `next` and the restored ids.
pub open spec fn restored_next_id(next: u64, history: Seq<ActivityRecord>) -> u64
    decreases history.len(),
{
    if history.len() == 0 {
        next
    } else {
        let before = restored_next_id(next, history.drop_last());
        let id = history.last().id as u64;
        if id > before {
            id
        } else {
            before
        }
    }
}

fn is_bitbake_kind_exec(kind: &String) -> (r: bool)
    ensures
        r == is_bitbake_kind(kind@),
{
    eq_str(kind, "metadata") || eq_str(kind, "deptree") || eq_str(kind, "plan") || eq_str(
        kind,
        "layout",
    )
}

/// Copies a vector of strings.
pub fn copy_strings(v: &Vec<String>) -> (r: Vec<String>)
    ensures
        r@ == v@,
{
    let mut out: Vec<String> = Vec::new();
    let mut i: usize = 0;
    while i < v.len()
        invariant
            i <= v@.len(),
            out@ == v@.take(i as int),
        decreases v@.len() - i,
    {
        out.push(v[i].clone());
        i = i + 1;
        assert(out@ =~= v@.take(i as int));
    }
    assert(v@.take(v@.len() as int) =~= v@);
    out
}

pub proof fn lemma_first_with_id_stable(recs: Seq<TaskRecord>, id: u64, m: int, n: int)
    requires
        m <= n,
        first_with_id(recs, id, m) >= 0,
    ensures
        first_with_id(recs, id, n) == first_with_id(recs, id, m),
    decreases n - m,
{
    if m < n {
        lemma_first_with_id_stable(recs, id, m, n - 1);
    }
}

pub proof fn lemma_first_running_key_stable(
    recs: Seq<TaskRecord>,
    key: Seq<char>,
    m: int,
    n: int,
)
    requires
        m <= n,
        first_running_key(recs, key, m) >= 0,
    ensures
        first_running_key(recs, key, n) == first_running_key(recs, key, m),
    decreases n - m,
{
    if m < n {
        lemma_first_running_key_stable(recs, key, m, n - 1);
    }
}

/// What `task_status` reports for a finished activity.
pub open spec fn task_status_word(cancelled: bool, succeeded: bool) -> Seq<char> {
    if cancelled {
        "cancelled"@
    } else if succeeded {
        "done"@
    } else {
        "failed"@
    }
}

/// The final status of an activity: cancelled wins over its outcome.
pub fn task_status(cancelled: bool, succeeded: bool) -> (r: &'static str)
    ensures
        r@ == task_status_word(cancelled, succeeded),
{
    if cancelled {
        "cancelled"
    } else if succeeded {
        "done"
    } else {
        "failed"
    }
}

// ---------------------------------------------------------------------------
// Poll buffer
// ---------------------------------------------------------------------------

/// The last `POLL_CAPACITY` messages, each with a sequence number.
pub struct PollBuffer<T> {
    pub next_id: u64,
    pub items: Vec<(u64, T)>,
}

impl<T: Clone> PollBuffer<T> {
    /// Sequence numbers increase strictly, stay below `next_id`, and at most
    /// `POLL_CAPACITY` messages are kept.
    pub open spec fn wf(&self) -> bool {
        &&& self.items@.len() <= POLL_CAPACITY
        &&& forall|i: int, j: int|
            0 <= i < j < self.items@.len() ==> self.items@[i].0 < self.items@[j].0
        &&& forall|i: int| 0 <= i < self.items@.len() ==> self.items@[i].0 < self.next_id
    }

    /// An empty buffer.
    pub fn new() -> (r: Self)
        ensures
            r.wf(),
            r.next_id == 0,
            r.items@.len() == 0,
    {
        PollBuffer { next_id: 0, items: Vec::new() }
    }

    /// Stores a message under the next sequence number, dropping the oldest
    /// beyond `POLL_CAPACITY`; returns its sequence number.
    pub fn push(&mut self, message: T) -> (id: u64)
        requires
            old(self).wf(),
            old(self).next_id < u64::MAX,
        ensures
            final(self).wf(),
            id == old(self).next_id,
            final(self).next_id == id + 1,
            final(self).items@ == old(self).items@.push((id, message)).skip(
                overflow(old(self).items@.len() + 1, POLL_CAPACITY as nat),
            ),
    {
        let id = self.next_id;
        self.next_id = self.next_id + 1;
        let ghost pushed = self.items@.push((id, message));
        self.items.push((id, message));
        let ghost mut dropped: int = 0;
        while self.items.len() > POLL_CAPACITY
            invariant
                self.items@ == pushed.skip(dropped),
                0 <= dropped <= overflow(pushed.len(), POLL_CAPACITY as nat),
                self.items@.len() + dropped == pushed.len(),
                self.next_id == id + 1,
            decreases self.items@.len(),
        {
            self.items.remove(0);
            proof {
                dropped = dropped + 1;
            }
            assert(self.items@ =~= pushed.skip(dropped));
        }
        proof {
            assert forall|i: int, j: int| 0 <= i < j < self.items@.len() implies self.items@[i].0
                < self.items@[j].0 by {
                assert(self.items@[i] == pushed[i + dropped]);
                assert(self.items@[j] == pushed[j + dropped]);
            }
            assert forall|i: int| 0 <= i < self.items@.len() implies self.items@[i].0
                < self.next_id by {
                assert(self.items@[i] == pushed[i + dropped]);
            }
        }
        id
    }

    /// The next sequence number and copies of the kept messages numbered at
    /// least `cursor`, oldest first.
    pub fn since(&self, cursor: u64) -> (r: (u64, Vec<T>))
        ensures
            r.0 == self.next_id,
            r.1@.len() == selected(self.items@, cursor).len(),
            forall|i: int|
                0 <= i < r.1@.len() ==> cloned::<T>(selected(self.items@, cursor)[i], r.1@[i]),
    {
        let mut out: Vec<T> = Vec::new();
        let mut i: usize = 0;
        while i < self.items.len()
            invariant
                i <= self.items@.len(),
                out@.len() == selected(self.items@.take(i as int), cursor).len(),
                forall|j: int|
                    0 <= j < out@.len() ==> cloned::<T>(
                        selected(self.items@.take(i as int), cursor)[j],
                        out@[j],
                    ),
            decreases self.items@.len() - i,
        {
            let ghost before = self.items@.take(i as int);
            let ghost after = self.items@.take(i + 1);
            assert(after.drop_last() =~= before);
            if self.items[i].0 >= cursor {
                let copy = self.items[i].1.clone();
                out.push(copy);
            }
            i = i + 1;
        }
        assert(self.items@.take(self.items@.len() as int) =~= self.items@);
        (self.next_id, out)
    }
}

/// The messages numbered at least `cursor`, oldest first.
pub open spec fn selected<T>(items: Seq<(u64, T)>, cursor: u64) -> Seq<T>
    decreases items.len(),
{
    if items.len() == 0 {
        Seq::empty()
    } else if items.last().0 >= cursor {
        selected(items.drop_last(), cursor).push(items.last().1)
    } else {
        selected(items.drop_last(), cursor)
    }
}


// ---------------------------------------------------------------------------
// Laws
// ---------------------------------------------------------------------------

/// The failures counted for `key`, 0 when none are.
pub open spec fn failures_of(f: Seq<(String, u32)>, key: Seq<char>) -> u32 {
    match failure_lookup(f, key) {
        Some(c) => c,
        None => 0,
    }
}

/// A key whose activity failed twice in a row (from no recorded failure)
/// is blocked: a start that is not forced is refused.
pub proof fn law_two_failures_block(
    f0: Seq<(String, u32)>,
    f1: Seq<(String, u32)>,
    f2: Seq<(String, u32)>,
    key: Seq<char>,
)
    requires
        failure_lookup(f0, key) is None,
        failure_lookup(f1, key) == Some(failures_of(f0, key).wrapping_add(1)),
        failure_lookup(f2, key) == Some(failures_of(f1, key).wrapping_add(1)),
    ensures
        failure_lookup(f2, key) matches Some(c) && c >= MAX_ATTEMPTS,
{
}

proof fn lemma_selected_below<T>(items: Seq<(u64, T)>, cursor: u64)
    requires
        forall|i: int| 0 <= i < items.len() ==> items[i].0 < cursor,
    ensures
        selected(items, cursor) == Seq::<T>::empty(),
    decreases items.len(),
{
    if items.len() > 0 {
        lemma_selected_below(items.drop_last(), cursor);
    }
}

/// A client that polls with the sequence number it was last given receives
/// exactly the message published since.
pub proof fn law_poll_sees_published<T>(items: Seq<(u64, T)>, next_id: u64, message: T)
    requires
        items.len() <= POLL_CAPACITY,
        forall|i: int| 0 <= i < items.len() ==> items[i].0 < next_id,
    ensures
        selected(
            items.push((next_id, message)).skip(overflow(items.len() + 1, POLL_CAPACITY as nat)),
            next_id,
        ) == seq![message],
{
    let k = overflow(items.len() + 1, POLL_CAPACITY as nat);
    let t = items.push((next_id, message)).skip(k);
    assert(0 <= k <= 1);
    assert(t.drop_last() =~= items.skip(k));
    assert(t.last() == (next_id, message));
    lemma_selected_below(items.skip(k), next_id);
    assert(selected(t, next_id) =~= seq![message]);
}
} // verus!
