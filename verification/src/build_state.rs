//! The state of the running BitBake build, fed by the build plugin's event
//! lines (`BITFORGE_EVENT:<event .../>`).

use std::sync::atomic::AtomicBool;
use std::sync::Arc;
use vstd::prelude::*;

use crate::order::{
    chars_less, lemma_less_asymmetric, lemma_less_irreflexive, lemma_less_total,
    lemma_less_transitive, seq_less, string_less,
};
use crate::signal::raise;
use crate::table::{lookup, lemma_lookup_push, Table};
use crate::tasks::overflow;
use crate::text::{chars_of, eq_str, parse_u64, parse_u64_spec};

verus! {

/// How many finished tasks the snapshot lists.
pub const RECENT_DONE_LIMIT: usize = 20;

/// A task BitBake is executing.
#[derive(Debug)]
pub struct RunningTask {
    pub recipe: String,
    pub task: String,
}

/// One row of the build's task table.
#[derive(Debug)]
pub struct TaskRow {
    pub recipe: String,
    pub task: String,
    pub status: String,
    pub started_at: Option<i64>,
    pub finished_at: Option<i64>,
    pub signature: Option<String>,
}

/// How many running tasks share a task name.
#[derive(Debug)]
pub struct TaskGroup {
    pub task: String,
    pub running: u64,
}

/// Task counters and lists of the build.
#[derive(Debug)]
pub struct TaskView {
    pub total: u64,
    pub done: u64,
    pub planned: u64,
    pub running: u64,
    pub failed: u64,
    pub setscene_total: u64,
    pub setscene_covered: u64,
    pub processing: Vec<RunningTask>,
    pub recent_done: Vec<String>,
    pub groups: Vec<TaskGroup>,
}

/// What the UI shows of a build.
#[derive(Debug)]
pub struct BuildSnapshot {
    pub id: i64,
    pub status: String,
    pub target: String,
    pub overall_progress: u8,
    pub current_task: String,
    pub started_at: i64,
    pub finished_at: Option<i64>,
    pub tasks: TaskView,
}

/// The build slot of the server: at most one build at a time.
pub struct BuildManager {
    pub current: Option<BuildSnapshot>,
    pub cancel_flag: Option<Arc<AtomicBool>>,
    pub task_id: Option<u64>,
    pub task_table: Table<TaskRow>,
}

// ---------------------------------------------------------------------------
// Copies
// ---------------------------------------------------------------------------

impl RunningTask {
    pub fn copy(&self) -> (r: Self)
        ensures
            r == *self,
    {
        RunningTask { recipe: self.recipe.clone(), task: self.task.clone() }
    }
}

impl TaskGroup {
    pub fn copy(&self) -> (r: Self)
        ensures
            r == *self,
    {
        TaskGroup { task: self.task.clone(), running: self.running }
    }
}

impl TaskRow {
    pub fn copy(&self) -> (r: Self)
        ensures
            r == *self,
    {
        TaskRow {
            recipe: self.recipe.clone(),
            task: self.task.clone(),
            status: self.status.clone(),
            started_at: self.started_at,
            finished_at: self.finished_at,
            signature: match &self.signature {
                Some(s) => Some(s.clone()),
                None => None,
            },
        }
    }
}

fn copy_running(v: &Vec<RunningTask>) -> (r: Vec<RunningTask>)
    ensures
        r@ == v@,
{
    let mut out: Vec<RunningTask> = Vec::new();
    let mut i: usize = 0;
    while i < v.len()
        invariant
            i <= v@.len(),
            out@ == v@.take(i as int),
        decreases v@.len() - i,
    {
        out.push(v[i].copy());
        i = i + 1;
        assert(out@ =~= v@.take(i as int));
    }
    assert(v@.take(v@.len() as int) =~= v@);
    out
}

fn copy_groups(v: &Vec<TaskGroup>) -> (r: Vec<TaskGroup>)
    ensures
        r@ == v@,
{
    let mut out: Vec<TaskGroup> = Vec::new();
    let mut i: usize = 0;
    while i < v.len()
        invariant
            i <= v@.len(),
            out@ == v@.take(i as int),
        decreases v@.len() - i,
    {
        out.push(v[i].copy());
        i = i + 1;
        assert(out@ =~= v@.take(i as int));
    }
    assert(v@.take(v@.len() as int) =~= v@);
    out
}

fn copy_strings(v: &Vec<String>) -> (r: Vec<String>)
    ensures
        r@ == v@,
{
    let mut out: Vec<String> = Vec::new();
    let mut i: usize = 0;
    while i < v.len()
        invariant
            i <= v@.len(),
            out@ == v@.take(i as int),
        decreases v@.len() - i,
    {
        out.push(v[i].clone());
        i = i + 1;
        assert(out@ =~= v@.take(i as int));
    }
    assert(v@.take(v@.len() as int) =~= v@);
    out
}

impl TaskView {
    /// All counters zero and all lists empty.
    pub fn empty() -> (r: Self)
        ensures
            r.total == 0 && r.done == 0 && r.planned == 0 && r.running == 0 && r.failed == 0,
            r.setscene_total == 0 && r.setscene_covered == 0,
            r.processing@.len() == 0 && r.recent_done@.len() == 0 && r.groups@.len() == 0,
    {
        TaskView {
            total: 0,
            done: 0,
            planned: 0,
            running: 0,
            failed: 0,
            setscene_total: 0,
            setscene_covered: 0,
            processing: Vec::new(),
            recent_done: Vec::new(),
            groups: Vec::new(),
        }
    }

    /// Equal counters and lists.
    pub open spec fn same(self, other: TaskView) -> bool {
        &&& self.total == other.total
        &&& self.done == other.done
        &&& self.planned == other.planned
        &&& self.running == other.running
        &&& self.failed == other.failed
        &&& self.setscene_total == other.setscene_total
        &&& self.setscene_covered == other.setscene_covered
        &&& self.processing@ == other.processing@
        &&& self.recent_done@ == other.recent_done@
        &&& self.groups@ == other.groups@
    }

    pub fn copy(&self) -> (r: Self)
        ensures
            r.same(*self),
    {
        TaskView {
            total: self.total,
            done: self.done,
            planned: self.planned,
            running: self.running,
            failed: self.failed,
            setscene_total: self.setscene_total,
            setscene_covered: self.setscene_covered,
            processing: copy_running(&self.processing),
            recent_done: copy_strings(&self.recent_done),
            groups: copy_groups(&self.groups),
        }
    }
}

impl BuildSnapshot {
    /// Equal fields, and equal task views.
    pub open spec fn same(self, other: BuildSnapshot) -> bool {
        &&& self.id == other.id
        &&& self.status == other.status
        &&& self.target == other.target
        &&& self.overall_progress == other.overall_progress
        &&& self.current_task == other.current_task
        &&& self.started_at == other.started_at
        &&& self.finished_at == other.finished_at
        &&& self.tasks.same(other.tasks)
    }

    pub fn copy(&self) -> (r: Self)
        ensures
            r.same(*self),
    {
        BuildSnapshot {
            id: self.id,
            status: self.status.clone(),
            target: self.target.clone(),
            overall_progress: self.overall_progress,
            current_task: self.current_task.clone(),
            started_at: self.started_at,
            finished_at: self.finished_at,
            tasks: self.tasks.copy(),
        }
    }
}

// ---------------------------------------------------------------------------
// Statuses
// ---------------------------------------------------------------------------

/// The table status for an event state.
pub open spec fn table_status_word(state: Seq<char>) -> Seq<char> {
    if state == "started"@ {
        "running"@
    } else if state == "completed"@ {
        "built"@
    } else if state == "failed"@ {
        "failed"@
    } else if state == "setscene-completed"@ {
        "cached"@
    } else {
        "queued"@
    }
}

/// How far a row has progressed: queued, running, finished.
pub open spec fn status_rank_spec(status: Seq<char>) -> u8 {
    if status == "running"@ {
        1
    } else if status == "cached"@ || status == "built"@ || status == "failed"@ {
        2
    } else {
        0
    }
}

/// The order of statuses in the task table.
pub open spec fn status_order_spec(status: Seq<char>) -> u8 {
    if status == "running"@ {
        0
    } else if status == "failed"@ {
        1
    } else if status == "queued"@ {
        2
    } else if status == "built"@ {
        3
    } else if status == "cached"@ {
        4
    } else {
        5
    }
}

/// The table status for an event state.
pub fn table_status(state: &str) -> (r: &'static str)
    ensures
        r@ == table_status_word(state@),
        state@ == "started"@ ==> r@ == "running"@,
        state@ == "completed"@ ==> r@ == "built"@,
        state@ == "failed"@ ==> r@ == "failed"@,
        state@ == "setscene-completed"@ ==> r@ == "cached"@,
        state@ != "started"@ && state@ != "completed"@ && state@ != "failed"@ && state@
            != "setscene-completed"@ ==> r@ == "queued"@,
{
    proof {
        reveal_strlit("started");
        reveal_strlit("completed");
        reveal_strlit("failed");
        reveal_strlit("setscene-completed");
        assert("completed"@ != "started"@) by {
            assert("completed"@.len() != "started"@.len());
        }
        assert("failed"@ != "started"@) by {
            assert("failed"@.len() != "started"@.len());
        }
        assert("failed"@ != "completed"@) by {
            assert("failed"@.len() != "completed"@.len());
        }
        assert("setscene-completed"@ != "started"@) by {
            assert("setscene-completed"@.len() != "started"@.len());
        }
        assert("setscene-completed"@ != "completed"@) by {
            assert("setscene-completed"@.len() != "completed"@.len());
        }
        assert("setscene-completed"@ != "failed"@) by {
            assert("setscene-completed"@.len() != "failed"@.len());
        }
    }
    let state = String::from_str(state);
    let state = &state;
    if eq_str(state, "started") {
        "running"
    } else if eq_str(state, "completed") {
        "built"
    } else if eq_str(state, "failed") {
        "failed"
    } else if eq_str(state, "setscene-completed") {
        "cached"
    } else {
        "queued"
    }
}

pub fn status_rank(status: &str) -> (r: u8)
    ensures
        r == status_rank_spec(status@),
        status@ == "running"@ ==> r == 1,
        status@ == "cached"@ || status@ == "built"@ || status@ == "failed"@ ==> r == 2,
        status@ != "running"@ && status@ != "cached"@ && status@ != "built"@ && status@
            != "failed"@ ==> r == 0,
{
    proof {
        reveal_strlit("running");
        reveal_strlit("cached");
        reveal_strlit("built");
        reveal_strlit("failed");
        assert("cached"@ != "running"@) by {
            assert("cached"@.len() != "running"@.len());
        }
        assert("built"@ != "running"@) by {
            assert("built"@.len() != "running"@.len());
        }
        assert("built"@ != "cached"@) by {
            assert("built"@.len() != "cached"@.len());
        }
        assert("failed"@ != "running"@) by {
            assert("failed"@.len() != "running"@.len());
        }
        assert("failed"@ != "cached"@) by {
            assert("failed"@[0] != "cached"@[0]);
        }
        assert("failed"@ != "built"@) by {
            assert("failed"@.len() != "built"@.len());
        }
    }
    let status = String::from_str(status);
    let status = &status;
    if eq_str(status, "running") {
        1
    } else if eq_str(status, "cached") || eq_str(status, "built") || eq_str(status, "failed") {
        2
    } else {
        0
    }
}

pub fn status_order(status: &str) -> (r: u8)
    ensures
        r == status_order_spec(status@),
        status@ == "running"@ ==> r == 0,
        status@ == "failed"@ ==> r == 1,
        status@ == "queued"@ ==> r == 2,
        status@ == "built"@ ==> r == 3,
        status@ == "cached"@ ==> r == 4,
        status@ != "running"@ && status@ != "failed"@ && status@ != "queued"@ && status@
            != "built"@ && status@ != "cached"@ ==> r == 5,
{
    proof {
        reveal_strlit("running");
        reveal_strlit("failed");
        reveal_strlit("queued");
        reveal_strlit("built");
        reveal_strlit("cached");
        assert("failed"@ != "running"@) by {
            assert("failed"@.len() != "running"@.len());
        }
        assert("queued"@ != "running"@) by {
            assert("queued"@.len() != "running"@.len());
        }
        assert("queued"@ != "failed"@) by {
            assert("queued"@[0] != "failed"@[0]);
        }
        assert("built"@ != "running"@) by {
            assert("built"@.len() != "running"@.len());
        }
        assert("built"@ != "failed"@) by {
            assert("built"@.len() != "failed"@.len());
        }
        assert("built"@ != "queued"@) by {
            assert("built"@.len() != "queued"@.len());
        }
        assert("cached"@ != "running"@) by {
            assert("cached"@.len() != "running"@.len());
        }
        assert("cached"@ != "failed"@) by {
            assert("cached"@[0] != "failed"@[0]);
        }
        assert("cached"@ != "queued"@) by {
            assert("cached"@[0] != "queued"@[0]);
        }
        assert("cached"@ != "built"@) by {
            assert("cached"@.len() != "built"@.len());
        }
    }
    let status = String::from_str(status);
    let status = &status;
    if eq_str(status, "running") {
        0
    } else if eq_str(status, "failed") {
        1
    } else if eq_str(status, "queued") {
        2
    } else if eq_str(status, "built") {
        3
    } else if eq_str(status, "cached") {
        4
    } else {
        5
    }
}

// ---------------------------------------------------------------------------
// Event attributes
// ---------------------------------------------------------------------------

/// The value of attribute `key`, or the empty string.
pub open spec fn attr_text(attrs: Seq<(String, String)>, key: Seq<char>) -> Seq<char> {
    match lookup(attrs, key) {
        Some(v) => v@,
        None => Seq::empty(),
    }
}

/// The numeric value of attribute `key`, or 0 when it is absent or not a number.
pub open spec fn attr_u64_spec(attrs: Seq<(String, String)>, key: Seq<char>) -> u64 {
    match lookup(attrs, key) {
        Some(v) => match parse_u64_spec(v@) {
            Some(n) => n,
            None => 0,
        },
        None => 0,
    }
}

/// The value of attribute `key`, or the empty string.
pub fn attr_or_empty(attrs: &Table<String>, key: &str) -> (r: String)
    ensures
        r@ == attr_text(attrs.entries@, key@),
{
    match attrs.get(&String::from_str(key)) {
        Some(v) => v.clone(),
        None => String::new(),
    }
}

/// The numeric value of attribute `key`, or 0.
pub fn attr_u64(attrs: &Table<String>, key: &str) -> (r: u64)
    ensures
        r == attr_u64_spec(attrs.entries@, key@),
{
    match attrs.get(&String::from_str(key)) {
        Some(v) => {
            let chars = chars_of(v.as_str());
            match parse_u64(&chars) {
                Some(n) => n,
                None => 0,
            }
        },
        None => 0,
    }
}

/// The task-log line for an event: `"<state>: <recipe> <task>"` when it has a state.
pub open spec fn event_task_log_spec(attrs: Seq<(String, String)>) -> Option<Seq<char>> {
    match lookup(attrs, "state"@) {
        Some(state) => Some(
            state@ + ": "@ + attr_text(attrs, "recipe"@) + " "@ + attr_text(attrs, "task"@),
        ),
        None => None,
    }
}

pub fn event_task_log(attrs: &Table<String>) -> (r: Option<String>)
    ensures
        match r {
            Some(s) => event_task_log_spec(attrs.entries@) == Some(s@),
            None => event_task_log_spec(attrs.entries@) is None,
        },
{
    let state = match attrs.get(&String::from_str("state")) {
        Some(s) => s.clone(),
        None => {
            return None;
        },
    };
    let recipe = attr_or_empty(attrs, "recipe");
    let task = attr_or_empty(attrs, "task");
    let mut out = state;
    out.append(": ");
    out.append(recipe.as_str());
    out.append(" ");
    out.append(task.as_str());
    Some(out)
}

/// `"<recipe> <task>"`.
pub open spec fn task_label(recipe: Seq<char>, task: Seq<char>) -> Seq<char> {
    recipe + " "@ + task
}

/// The task-table key of a recipe's task.
pub open spec fn row_key(recipe: Seq<char>, task: Seq<char>) -> Seq<char> {
    recipe + "\u{1}"@ + task
}

// ---------------------------------------------------------------------------
// Task table
// ---------------------------------------------------------------------------

/// The row stored after `upsert_task_row(existing, row)`: a row never moves
/// back to a lower rank, and keeps the start time and signature it had when
/// the new row lacks them.
pub open spec fn upserted(existing: Option<TaskRow>, row: TaskRow) -> Option<TaskRow> {
    match existing {
        None => Some(row),
        Some(ex) => if status_rank_spec(ex.status@) > status_rank_spec(row.status@) {
            None
        } else {
            Some(
                TaskRow {
                    started_at: if row.started_at is None {
                        ex.started_at
                    } else {
                        row.started_at
                    },
                    signature: if row.signature is None {
                        ex.signature
                    } else {
                        row.signature
                    },
                    ..row
                },
            )
        },
    }
}

/// Stores `row` under `key` unless the stored row has a higher rank.
pub fn upsert_task_row(table: &mut Table<TaskRow>, key: String, row: TaskRow)
    ensures
        match upserted(old(table).get_spec(key@), row) {
            Some(stored) => {
                &&& final(table).get_spec(key@) == Some(stored)
                &&& forall|k: Seq<char>|
                    k != key@ ==> final(table).get_spec(k) == old(table).get_spec(k)
            },
            None => forall|k: Seq<char>| final(table).get_spec(k) == old(table).get_spec(k),
        },
{
    let mut row = row;
    let new_rank = status_rank(row.status.as_str());
    match table.get(&key) {
        Some(existing) => {
            if row.started_at.is_none() {
                row.started_at = existing.started_at;
            }
            if row.signature.is_none() {
                row.signature = match &existing.signature {
                    Some(s) => Some(s.clone()),
                    None => None,
                };
            }
            if status_rank(existing.status.as_str()) > new_rank {
                return;
            }
        },
        None => {},
    }
    table.insert(key, row);
}

/// The rank of the row stored for a key never decreases.
pub proof fn law_upsert_keeps_rank(existing: TaskRow, row: TaskRow)
    ensures
        match upserted(Some(existing), row) {
            Some(stored) => status_rank_spec(stored.status@) >= status_rank_spec(
                existing.status@,
            ),
            None => true,
        },
{
}

// ---------------------------------------------------------------------------
// Running task groups
// ---------------------------------------------------------------------------

/// How many running tasks have task name `t`.
pub open spec fn count_task(p: Seq<RunningTask>, t: Seq<char>) -> nat
    decreases p.len(),
{
    if p.len() == 0 {
        0
    } else {
        count_task(p.drop_last(), t) + if p.last().task@ == t {
            1nat
        } else {
            0nat
        }
    }
}

/// `groups` lists each task name of `p` once, in increasing order, with the
/// number of running tasks that have it.
pub open spec fn groups_of(groups: Seq<TaskGroup>, p: Seq<RunningTask>) -> bool {
    &&& forall|i: int, j: int|
        0 <= i < j < groups.len() ==> seq_less(groups[i].task@, groups[j].task@)
    &&& forall|i: int|
        0 <= i < groups.len() ==> groups[i].running == count_task(p, groups[i].task@)
            && count_task(p, groups[i].task@) > 0
    &&& forall|i: int|
        0 <= i < p.len() ==> exists|j: int|
            0 <= j < groups.len() && groups[j].task@ == (#[trigger] p[i]).task@
}

proof fn lemma_count_task_push(p: Seq<RunningTask>, e: RunningTask, t: Seq<char>)
    ensures
        count_task(p.push(e), t) == count_task(p, t) + if e.task@ == t {
            1nat
        } else {
            0nat
        },
{
    assert(p.push(e).drop_last() =~= p);
}

proof fn lemma_count_task_bound(p: Seq<RunningTask>, t: Seq<char>)
    ensures
        count_task(p, t) <= p.len(),
    decreases p.len(),
{
    if p.len() > 0 {
        lemma_count_task_bound(p.drop_last(), t);
    }
}

/// The running tasks grouped by task name.
pub fn group_running(processing: &Vec<RunningTask>) -> (r: Vec<TaskGroup>)
    ensures
        groups_of(r@, processing@),
{
    let mut groups: Vec<TaskGroup> = Vec::new();
    let mut i: usize = 0;
    while i < processing.len()
        invariant
            i <= processing@.len(),
            groups_of(groups@, processing@.take(i as int)),
        decreases processing@.len() - i,
    {
        let ghost p0 = processing@.take(i as int);
        let ghost e = processing@[i as int];
        let ghost p1 = processing@.take(i + 1);
        assert(p1 =~= p0.push(e));
        proof {
            lemma_count_task_bound(p0, e.task@);
        }
        let name = chars_of(processing[i].task.as_str());
        // find the insertion point: the first group whose name is not less than `name`
        let mut j: usize = 0;
        while j < groups.len()
            invariant
                j <= groups@.len(),
                name@ == e.task@,
                forall|k: int| 0 <= k < j ==> seq_less(groups@[k].task@, name@),
            ensures
                j <= groups@.len(),
                forall|k: int| 0 <= k < j ==> seq_less(groups@[k].task@, name@),
                j < groups@.len() ==> !seq_less(groups@[j as int].task@, name@),
            decreases groups@.len() - j,
        {
            let g = chars_of(groups[j].task.as_str());
            if !chars_less(&g, &name) {
                break;
            }
            j = j + 1;
        }
        let ghost before = groups@;
        let found = j < groups.len() && groups[j].task == processing[i].task;
        if found {
            let count = groups[j].running;
            assert(count <= p0.len()) by {
                lemma_count_task_bound(p0, e.task@);
            }
            let g = TaskGroup { task: processing[i].task.clone(), running: count + 1 };
            groups.set(j, g);
            proof {
                assert forall|a: int, b: int| 0 <= a < b < groups@.len() implies seq_less(
                    groups@[a].task@,
                    groups@[b].task@,
                ) by {
                    assert(groups@[a].task@ == before[a].task@);
                    assert(groups@[b].task@ == before[b].task@);
                }
                assert forall|a: int| 0 <= a < groups@.len() implies groups@[a].running
                    == count_task(p1, groups@[a].task@) && count_task(p1, groups@[a].task@) > 0 by {
                    lemma_count_task_push(p0, e, groups@[a].task@);
                    if a != j {
                        assert(groups@[a] == before[a]);
                        if before[a].task@ == e.task@ {
                            // distinct names: the only group with this name is at j
                            if a < j {
                                lemma_less_irreflexive(e.task@);
                            } else {
                                lemma_less_irreflexive(e.task@);
                            }
                        }
                    }
                }
                assert forall|a: int| 0 <= a < p1.len() implies exists|b: int|
                    0 <= b < groups@.len() && groups@[b].task@ == (#[trigger] p1[a]).task@ by {
                    if a < p0.len() {
                        assert(p1[a] == p0[a]);
                        let b = choose|b: int|
                            0 <= b < before.len() && before[b].task@ == (#[trigger] p0[a]).task@;
                        assert(groups@[b].task@ == before[b].task@);
                    } else {
                        assert(groups@[j as int].task@ == e.task@);
                    }
                }
            }
        } else {
            groups.insert(j, TaskGroup { task: processing[i].task.clone(), running: 1 });
            proof {
                lemma_count_task_push(p0, e, e.task@);
                // the new name did not occur before
                assert(count_task(p0, e.task@) == 0) by {
                    if count_task(p0, e.task@) > 0 {
                        lemma_count_positive_has_member(p0, e.task@);
                        let a = choose|a: int| 0 <= a < p0.len() && (#[trigger] p0[a]).task@
                            == e.task@;
                        let b = choose|b: int|
                            0 <= b < before.len() && before[b].task@ == (#[trigger] p0[a]).task@;
                        if b < j {
                            lemma_less_irreflexive(e.task@);
                        } else if b == j {
                        } else {
                            lemma_less_total(before[j as int].task@, e.task@);
                            lemma_less_transitive(e.task@, before[j as int].task@, before[b].task@);
                            lemma_less_irreflexive(e.task@);
                        }
                    }
                }
                assert forall|a: int, b: int| 0 <= a < b < groups@.len() implies seq_less(
                    groups@[a].task@,
                    groups@[b].task@,
                ) by {
                    if j < before.len() {
                        lemma_less_total(before[j as int].task@, e.task@);
                    }
                    if a < j && b == j {
                    } else if a < j && b > j {
                        assert(groups@[b] == before[b - 1]);
                    } else if a == j && b > j {
                        assert(groups@[b] == before[b - 1]);
                        if b - 1 > j {
                            lemma_less_transitive(e.task@, before[j as int].task@, before[b - 1].task@);
                        }
                    } else if a > j {
                        assert(groups@[a] == before[a - 1]);
                        assert(groups@[b] == before[b - 1]);
                    } else {
                        assert(groups@[a] == before[a]);
                        assert(groups@[b] == before[b]);
                    }
                }
                assert forall|a: int| 0 <= a < groups@.len() implies groups@[a].running
                    == count_task(p1, groups@[a].task@) && count_task(p1, groups@[a].task@) > 0 by {
                    if a == j {
                    } else {
                        let ga = if a < j {
                            before[a]
                        } else {
                            before[a - 1]
                        };
                        assert(groups@[a] == ga);
                        lemma_count_task_push(p0, e, ga.task@);
                        if ga.task@ == e.task@ {
                            assert(count_task(p0, ga.task@) > 0);
                        }
                    }
                }
                assert forall|a: int| 0 <= a < p1.len() implies exists|b: int|
                    0 <= b < groups@.len() && groups@[b].task@ == (#[trigger] p1[a]).task@ by {
                    if a < p0.len() {
                        assert(p1[a] == p0[a]);
                        let b = choose|b: int|
                            0 <= b < before.len() && before[b].task@ == (#[trigger] p0[a]).task@;
                        if b < j {
                            assert(groups@[b] == before[b]);
                        } else {
                            assert(groups@[b + 1] == before[b]);
                        }
                    } else {
                        assert(groups@[j as int].task@ == e.task@);
                    }
                }
            }
        }
        i = i + 1;
    }
    assert(processing@.take(processing@.len() as int) =~= processing@);
    groups
}

proof fn lemma_count_positive_has_member(p: Seq<RunningTask>, t: Seq<char>)
    requires
        count_task(p, t) > 0,
    ensures
        exists|a: int| 0 <= a < p.len() && (#[trigger] p[a]).task@ == t,
    decreases p.len(),
{
    if p.last().task@ == t {
        assert(p[p.len() - 1].task@ == t);
    } else {
        lemma_count_positive_has_member(p.drop_last(), t);
        let a = choose|a: int| 0 <= a < p.drop_last().len() && (#[trigger] p.drop_last()[a]).task@
            == t;
        assert(p[a] == p.drop_last()[a]);
    }
}

// ---------------------------------------------------------------------------
// Processing list and recent tasks
// ---------------------------------------------------------------------------

/// The `(recipe, task)` pairs of running tasks.
pub open spec fn running_views(p: Seq<RunningTask>) -> Seq<(Seq<char>, Seq<char>)> {
    p.map_values(|r: RunningTask| (r.recipe@, r.task@))
}

/// `p` without the entries equal to `x`.
pub open spec fn without(p: Seq<(Seq<char>, Seq<char>)>, x: (Seq<char>, Seq<char>)) -> Seq<
    (Seq<char>, Seq<char>),
>
    decreases p.len(),
{
    if p.len() == 0 {
        p
    } else if p.last() == x {
        without(p.drop_last(), x)
    } else {
        without(p.drop_last(), x).push(p.last())
    }
}

/// The views of a vector of strings.
pub open spec fn text_views(v: Seq<String>) -> Seq<Seq<char>> {
    v.map_values(|s: String| s@)
}

/// Records a started task unless it is already listed.
fn note_started(p: &mut Vec<RunningTask>, recipe: &String, task: &String)
    ensures
        running_views(final(p)@) == if running_views(old(p)@).contains((recipe@, task@)) {
            running_views(old(p)@)
        } else {
            running_views(old(p)@).push((recipe@, task@))
        },
{
    let mut i: usize = 0;
    while i < p.len()
        invariant
            i <= p@.len(),
            forall|j: int| 0 <= j < i ==> running_views(p@)[j] != (recipe@, task@),
        decreases p@.len() - i,
    {
        if p[i].recipe == *recipe && p[i].task == *task {
            assert(running_views(p@)[i as int] == (recipe@, task@));
            return;
        }
        i = i + 1;
    }
    let ghost before = p@;
    p.push(RunningTask { recipe: recipe.clone(), task: task.clone() });
    assert(running_views(p@) =~= running_views(before).push((recipe@, task@)));
}

/// Removes a finished task from the running list.
fn note_finished(p: &mut Vec<RunningTask>, recipe: &String, task: &String)
    ensures
        running_views(final(p)@) == without(running_views(old(p)@), (recipe@, task@)),
{
    let mut kept: Vec<RunningTask> = Vec::new();
    let mut i: usize = 0;
    let ghost x = (recipe@, task@);
    while i < p.len()
        invariant
            i <= p@.len(),
            p@ == old(p)@,
            x == (recipe@, task@),
            running_views(kept@) == without(running_views(p@.take(i as int)), x),
        decreases p@.len() - i,
    {
        let ghost before = kept@;
        let ghost pre = running_views(p@.take(i as int));
        let ghost post = running_views(p@.take(i + 1));
        assert(post.drop_last() =~= pre);
        assert(post.last() == (p@[i as int].recipe@, p@[i as int].task@));
        assert(without(post, x) == if post.last() == x {
            without(pre, x)
        } else {
            without(pre, x).push(post.last())
        });
        let same_recipe = p[i].recipe == *recipe;
        let same_task = p[i].task == *task;
        assert(same_recipe == (p@[i as int].recipe@ == recipe@));
        assert(same_task == (p@[i as int].task@ == task@));
        if !(same_recipe && same_task) {
            kept.push(p[i].copy());
            assert(running_views(kept@) =~= running_views(before).push(post.last()));
            assert(post.last() != x);
            assert(running_views(kept@) == without(post, x));
        } else {
            assert(post.last() == x);
            assert(running_views(kept@) == without(post, x));
        }
        i = i + 1;
    }
    assert(p@.take(p@.len() as int) =~= p@);
    *p = kept;
}

/// Appends a finished task, keeping the last `RECENT_DONE_LIMIT`.
fn push_recent(d: &mut Vec<String>, label: String)
    ensures
        text_views(final(d)@) == text_views(old(d)@).push(label@).skip(
            overflow(old(d)@.len() + 1, RECENT_DONE_LIMIT as nat),
        ),
{
    let ghost pushed = text_views(d@).push(label@);
    d.push(label);
    assert(text_views(d@) =~= pushed);
    let ghost mut dropped: int = 0;
    while d.len() > RECENT_DONE_LIMIT
        invariant
            text_views(d@) == pushed.skip(dropped),
            0 <= dropped <= overflow(pushed.len(), RECENT_DONE_LIMIT as nat),
            d@.len() + dropped == pushed.len(),
        decreases d@.len(),
    {
        let ghost prev = d@;
        d.remove(0);
        assert(d@ =~= prev.drop_first());
        assert(text_views(d@) =~= text_views(prev).drop_first());
        proof {
            dropped = dropped + 1;
        }
        assert(text_views(d@) =~= pushed.skip(dropped));
    }
}

// ---------------------------------------------------------------------------
// Events
// ---------------------------------------------------------------------------

/// What the caller does after an event: publish the build (`applied`),
/// append a line to the build's activity log, and set the progress from
/// `(completed, total)`.
pub struct EventOutcome {
    pub applied: bool,
    pub task_log: Option<(u64, String)>,
    pub progress: Option<(u64, u64)>,
}

/// The row an event of kind `task` stores in the task table.
pub open spec fn event_row(row: TaskRow, attrs: Seq<(String, String)>, ts: i64) -> bool {
    let state = attr_text(attrs, "state"@);
    let status = table_status_word(state);
    &&& row.recipe@ == attr_text(attrs, "recipe"@)
    &&& row.task@ == attr_text(attrs, "task"@)
    &&& row.status@ == status
    &&& row.started_at == if state == "started"@ || state == "setscene-started"@ {
        Some(ts)
    } else {
        None::<i64>
    }
    &&& row.finished_at == if status == "built"@ || status == "cached"@ || status == "failed"@ {
        Some(ts)
    } else {
        None::<i64>
    }
    &&& match lookup(attrs, "taskhash"@) {
        Some(h) => if h@.len() > 0 {
            row.signature matches Some(sig) && sig@ == h@
        } else {
            row.signature is None
        },
        None => row.signature is None,
    }
}

/// Scalar fields of a snapshot other than the task view are unchanged.
pub open spec fn same_head(a: BuildSnapshot, b: BuildSnapshot) -> bool {
    &&& a.id == b.id
    &&& a.status == b.status
    &&& a.target == b.target
    &&& a.overall_progress == b.overall_progress
    &&& a.started_at == b.started_at
    &&& a.finished_at == b.finished_at
}

/// The effect of a `task` event on the task view.
pub open spec fn task_event_view(old_v: TaskView, new_v: TaskView, attrs: Seq<(String, String)>) -> bool {
    let state = attr_text(attrs, "state"@);
    let pair = (attr_text(attrs, "recipe"@), attr_text(attrs, "task"@));
    let label = task_label(pair.0, pair.1);
    &&& new_v.total == old_v.total && new_v.done == old_v.done && new_v.planned == old_v.planned
    &&& new_v.running == old_v.running && new_v.failed == old_v.failed
    &&& new_v.setscene_total == old_v.setscene_total
    &&& new_v.setscene_covered == old_v.setscene_covered
    &&& if state == "started"@ {
        &&& running_views(new_v.processing@) == if running_views(old_v.processing@).contains(
            pair,
        ) {
            running_views(old_v.processing@)
        } else {
            running_views(old_v.processing@).push(pair)
        }
        &&& new_v.recent_done@ == old_v.recent_done@
    } else if state == "completed"@ || state == "failed"@ {
        &&& running_views(new_v.processing@) == without(running_views(old_v.processing@), pair)
        &&& text_views(new_v.recent_done@) == text_views(old_v.recent_done@).push(label).skip(
            overflow(old_v.recent_done@.len() + 1, RECENT_DONE_LIMIT as nat),
        )
    } else {
        &&& new_v.processing@ == old_v.processing@
        &&& new_v.recent_done@ == old_v.recent_done@
    }
    &&& groups_of(new_v.groups@, new_v.processing@)
}

/// The effect of a `progress` event on the task view.
pub open spec fn progress_event_view(
    old_v: TaskView,
    new_v: TaskView,
    attrs: Seq<(String, String)>,
) -> bool {
    let total = attr_u64_spec(attrs, "total"@);
    let completed = attr_u64_spec(attrs, "completed"@);
    &&& new_v.total == total
    &&& new_v.done == completed
    &&& new_v.running == attr_u64_spec(attrs, "active"@)
    &&& new_v.failed == attr_u64_spec(attrs, "failed"@)
    &&& new_v.planned == if total >= completed {
        (total - completed) as u64
    } else {
        0u64
    }
    &&& new_v.setscene_total == attr_u64_spec(attrs, "setscene_total"@)
    &&& new_v.setscene_covered == attr_u64_spec(attrs, "setscene_covered"@)
    &&& new_v.processing@ == old_v.processing@
    &&& new_v.recent_done@ == old_v.recent_done@
    &&& new_v.groups@ == old_v.groups@
}

/// An event is applied when it parsed and concerns the current build.
pub open spec fn event_applies(
    attrs: Option<Table<String>>,
    current: Option<BuildSnapshot>,
    build_id: i64,
) -> bool {
    attrs is Some && (current matches Some(c) && c.id == build_id)
}

/// The effect of an applied event on the current snapshot's tasks and
/// current task.
pub open spec fn event_view(cur: BuildSnapshot, new_cur: BuildSnapshot, attrs: Seq<(String, String)>) -> bool {
    let kind = attr_text(attrs, "kind"@);
    if kind == "progress"@ {
        &&& progress_event_view(cur.tasks, new_cur.tasks, attrs)
        &&& new_cur.current_task == cur.current_task
    } else if kind == "task"@ {
        &&& task_event_view(cur.tasks, new_cur.tasks, attrs)
        &&& if attr_text(attrs, "state"@) == "started"@ {
            new_cur.current_task@ == task_label(attr_text(attrs, "recipe"@), attr_text(attrs, "task"@))
        } else {
            new_cur.current_task == cur.current_task
        }
    } else {
        &&& new_cur.tasks == cur.tasks
        &&& new_cur.current_task == cur.current_task
    }
}

/// The effect of an applied event on the task table: a `task` event upserts
/// its row under `"<recipe>\u{1}<task>"`.
pub open spec fn event_table(
    old_t: Table<TaskRow>,
    new_t: Table<TaskRow>,
    attrs: Seq<(String, String)>,
    ts: i64,
) -> bool {
    if attr_text(attrs, "kind"@) == "task"@ {
        exists|row: TaskRow|
            event_row(row, attrs, ts) && {
                let key = row_key(row.recipe@, row.task@);
                match upserted(old_t.get_spec(key), row) {
                    Some(stored) => {
                        &&& new_t.get_spec(key) == Some(stored)
                        &&& forall|k: Seq<char>| k != key ==> new_t.get_spec(k) == old_t.get_spec(k)
                    },
                    None => forall|k: Seq<char>| new_t.get_spec(k) == old_t.get_spec(k),
                }
            }
    } else {
        new_t == old_t
    }
}

/// The progress basis reported for an applied event.
pub open spec fn event_progress(attrs: Seq<(String, String)>) -> Option<(u64, u64)> {
    if attr_text(attrs, "kind"@) == "progress"@ && attr_u64_spec(attrs, "total"@) > 0 {
        Some((attr_u64_spec(attrs, "completed"@), attr_u64_spec(attrs, "total"@)))
    } else {
        None
    }
}

/// What applying one event (`attrs`, or `None` when it could not be
/// parsed) to build `build_id` does: events for another build, or when no
/// build is current, or unparsed ones, change nothing; otherwise the
/// snapshot and task table follow the event, the progress basis is
/// reported, and a task event's log line is reported for the build's
/// activity.
pub open spec fn event_effect(
    before: BuildManager,
    after: BuildManager,
    build_id: i64,
    attrs: Option<Table<String>>,
    ts: i64,
    r: EventOutcome,
) -> bool {
    &&& after.cancel_flag == before.cancel_flag
    &&& after.task_id == before.task_id
    &&& r.applied == event_applies(attrs, before.current, build_id)
    &&& !r.applied ==> {
        &&& r.task_log is None
        &&& r.progress is None
        &&& after.current == before.current
        &&& after.task_table == before.task_table
    }
    &&& r.applied ==> (after.current matches Some(new_cur) && same_head(new_cur, before.current->0))
    &&& r.applied ==> event_view(before.current->0, after.current->0, attrs->0.entries@)
    &&& r.applied ==> event_table(before.task_table, after.task_table, attrs->0.entries@, ts)
    &&& r.applied ==> r.progress == event_progress(attrs->0.entries@)
    &&& r.applied ==> match r.task_log {
        Some((id, line)) => {
            &&& attr_text(attrs->0.entries@, "kind"@) == "task"@
            &&& before.task_id == Some(id)
            &&& event_task_log_spec(attrs->0.entries@) == Some(line@)
        },
        None => !(attr_text(attrs->0.entries@, "kind"@) == "task"@ && before.task_id is Some
            && event_task_log_spec(attrs->0.entries@) is Some),
    }
}

/// The attributes (local name, value) of the first start element an XML
/// reader yields for `payload` before it stops, in document order.
pub uninterp spec fn xml_start_attributes(payload: Seq<char>) -> Option<Seq<(Seq<char>, Seq<char>)>>;

pub open spec fn attr_views(v: Seq<(String, String)>) -> Seq<(Seq<char>, Seq<char>)> {
    v.map_values(|p: (String, String)| (p.0@, p.1@))
}

/// `attrs` is what the XML reader makes of `payload`.
pub open spec fn parsed_event(payload: Seq<char>, attrs: Option<Table<String>>) -> bool {
    match attrs {
        Some(t) => xml_start_attributes(payload) == Some(attr_views(t.entries@)),
        None => xml_start_attributes(payload) is None,
    }
}

/// Reads a build event element with the `xml` crate's `EventReader`: the
/// attributes of the first start element it yields (local names and
/// values, in order), or `None` when it yields none before stopping.
#[verifier::external_body]
fn parse_event_element(payload: &str) -> (r: Option<Table<String>>)
    ensures
        match r {
            Some(t) => xml_start_attributes(payload@) == Some(attr_views(t.entries@)),
            None => xml_start_attributes(payload@) is None,
        },
{
    for event in xml::reader::EventReader::from_str(payload) {
        if let Ok(xml::reader::XmlEvent::StartElement { attributes, .. }) = event {
            let entries = attributes.into_iter().map(|a| (a.name.local_name, a.value)).collect();
            return Some(Table { entries });
        }
    }
    None
}

impl BuildManager {
    /// No build, no flag, no activity, an empty table.
    pub fn new() -> (r: Self)
        ensures
            r.current is None,
            r.cancel_flag is None,
            r.task_id is None,
            r.task_table.entries@.len() == 0,
    {
        BuildManager { current: None, cancel_flag: None, task_id: None, task_table: Table::new() }
    }

    /// A build is running.
    pub open spec fn running(&self) -> bool {
        self.current matches Some(s) && s.status@ == "running"@
    }

    pub fn is_running(&self) -> (r: bool)
        ensures
            r == self.running(),
    {
        match &self.current {
            Some(snapshot) => eq_str(&snapshot.status, "running"),
            None => false,
        }
    }

    /// Raises the build's cancellation flag; returns whether there is one.
    pub fn request_cancel(&self) -> (r: bool)
        ensures
            r == self.cancel_flag is Some,
    {
        match &self.cancel_flag {
            Some(flag) => {
                raise(flag);
                true
            },
            None => false,
        }
    }

    /// A copy of the current snapshot.
    pub fn current_snapshot(&self) -> (r: Option<BuildSnapshot>)
        ensures
            match (r, self.current) {
                (Some(a), Some(b)) => a.same(b),
                (None, None) => true,
                _ => false,
            },
    {
        match &self.current {
            Some(snapshot) => Some(snapshot.copy()),
            None => None,
        }
    }

    /// Installs a fresh running snapshot for build `id` and clears the task table.
    pub fn begin(&mut self, id: i64, target: String, started_at: i64, cancel: Arc<AtomicBool>)
        ensures
            final(self).current matches Some(s) && {
                &&& s.id == id
                &&& s.status@ == "running"@
                &&& s.target == target
                &&& s.overall_progress == 0
                &&& s.current_task@ == "Starting bitbake"@
                &&& s.started_at == started_at
                &&& s.finished_at is None
                &&& s.tasks.total == 0 && s.tasks.done == 0 && s.tasks.planned == 0
                &&& s.tasks.running == 0 && s.tasks.failed == 0
                &&& s.tasks.setscene_total == 0 && s.tasks.setscene_covered == 0
                &&& s.tasks.processing@.len() == 0 && s.tasks.recent_done@.len() == 0
                &&& s.tasks.groups@.len() == 0
            },
            final(self).running(),
            final(self).cancel_flag == Some(cancel),
            final(self).task_id == old(self).task_id,
            forall|k: Seq<char>| final(self).task_table.get_spec(k) is None,
    {
        self.current = Some(
            BuildSnapshot {
                id,
                status: String::from_str("running"),
                target,
                overall_progress: 0,
                current_task: String::from_str("Starting bitbake"),
                started_at,
                finished_at: None,
                tasks: TaskView::empty(),
            },
        );
        self.cancel_flag = Some(cancel);
        self.task_table = Table::new();
    }

    /// Remembers the activity that tracks the build.
    pub fn set_task_id(&mut self, id: u64)
        ensures
            final(self).task_id == Some(id),
            final(self).current == old(self).current,
            final(self).cancel_flag == old(self).cancel_flag,
            final(self).task_table == old(self).task_table,
    {
        self.task_id = Some(id);
    }

    /// Sets the overall progress of build `build_id` if it is the current one.
    pub fn set_progress(&mut self, build_id: i64, percent: u8)
        ensures
            match old(self).current {
                Some(s) => if s.id == build_id {
                    final(self).current matches Some(t) && t.overall_progress == percent
                        && t.id == s.id && t.status == s.status && t.target == s.target
                        && t.current_task == s.current_task && t.started_at == s.started_at
                        && t.finished_at == s.finished_at && t.tasks == s.tasks
                } else {
                    final(self).current == old(self).current
                },
                None => final(self).current is None,
            },
            final(self).cancel_flag == old(self).cancel_flag,
            final(self).task_id == old(self).task_id,
            final(self).task_table == old(self).task_table,
    {
        match &mut self.current {
            Some(snapshot) => {
                if snapshot.id == build_id {
                    snapshot.overall_progress = percent;
                }
            },
            None => {},
        }
    }

    /// Applies one build event to build `build_id`. Events for another build,
    /// or when no build is current, or that could not be parsed, change
    /// nothing and are not published.
    pub fn apply_event(&mut self, build_id: i64, attrs: Option<Table<String>>, ts: i64) -> (r:
        EventOutcome)
        ensures
            event_effect(*old(self), *final(self), build_id, attrs, ts, r),
    {
        proof {
            reveal_strlit("progress");
            reveal_strlit("task");
            assert("progress"@[0] != "task"@[0]);
        }
        let ghost attrs_in = attrs;
        let none = EventOutcome { applied: false, task_log: None, progress: None };
        let attrs = match attrs {
            Some(a) => a,
            None => {
                return none;
            },
        };
        assert(attrs_in == Some(attrs));
        match &self.current {
            Some(cur) => {
                if cur.id != build_id {
                    return none;
                }
            },
            None => {
                return none;
            },
        }
        let kind = attr_or_empty(&attrs, "kind");
        let task_id = self.task_id;
        let mut cur = match self.current.take() {
            Some(c) => c,
            None => {
                return none;
            },
        };
        let ghost old_cur = cur;
        let mut progress: Option<(u64, u64)> = None;
        if eq_str(&kind, "progress") {
            let total = attr_u64(&attrs, "total");
            let completed = attr_u64(&attrs, "completed");
            let active = attr_u64(&attrs, "active");
            cur.tasks.total = total;
            cur.tasks.done = completed;
            cur.tasks.running = active;
            cur.tasks.failed = attr_u64(&attrs, "failed");
            cur.tasks.planned = total.saturating_sub(completed);
            cur.tasks.setscene_total = attr_u64(&attrs, "setscene_total");
            cur.tasks.setscene_covered = attr_u64(&attrs, "setscene_covered");
            if total > 0 {
                progress = Some((completed, total));
            }
            assert(progress_event_view(old_cur.tasks, cur.tasks, attrs.entries@));
            assert(kind@ != "task"@);
            assert(event_table(old(self).task_table, self.task_table, attrs.entries@, ts));
        } else if eq_str(&kind, "task") {
            let state_name = attr_or_empty(&attrs, "state");
            let recipe = attr_or_empty(&attrs, "recipe");
            let task = attr_or_empty(&attrs, "task");
            if eq_str(&state_name, "started") {
                note_started(&mut cur.tasks.processing, &recipe, &task);
                let mut label = recipe.clone();
                label.append(" ");
                label.append(task.as_str());
                cur.current_task = label;
            } else if eq_str(&state_name, "completed") || eq_str(&state_name, "failed") {
                note_finished(&mut cur.tasks.processing, &recipe, &task);
                let mut label = recipe.clone();
                label.append(" ");
                label.append(task.as_str());
                push_recent(&mut cur.tasks.recent_done, label);
            }
            cur.tasks.groups = group_running(&cur.tasks.processing);
            let mut key = recipe.clone();
            key.append("\u{1}");
            key.append(task.as_str());
            let status = String::from_str(table_status(state_name.as_str()));
            let started = eq_str(&state_name, "started") || eq_str(&state_name, "setscene-started");
            let finished = eq_str(&status, "built") || eq_str(&status, "cached") || eq_str(
                &status,
                "failed",
            );
            let signature = match attrs.get(&String::from_str("taskhash")) {
                Some(h) => if h.as_str().unicode_len() > 0 {
                    Some(h.clone())
                } else {
                    None
                },
                None => None,
            };
            let row = TaskRow {
                recipe,
                task,
                status,
                started_at: if started {
                    Some(ts)
                } else {
                    None
                },
                finished_at: if finished {
                    Some(ts)
                } else {
                    None
                },
                signature,
            };
            let ghost row_v = row;
            assert(event_row(row_v, attrs.entries@, ts));
            let ghost key_v = key@;
            assert(key_v == row_key(row_v.recipe@, row_v.task@));
            upsert_task_row(&mut self.task_table, key, row);
            assert(task_event_view(old_cur.tasks, cur.tasks, attrs.entries@));
            assert(exists|row: TaskRow|
                event_row(row, attrs.entries@, ts) && {
                    let key = row_key(row.recipe@, row.task@);
                    match upserted(old(self).task_table.get_spec(key), row) {
                        Some(stored) => {
                            &&& self.task_table.get_spec(key) == Some(stored)
                            &&& forall|k: Seq<char>|
                                k != key ==> self.task_table.get_spec(k)
                                    == old(self).task_table.get_spec(k)
                        },
                        None => forall|k: Seq<char>|
                            self.task_table.get_spec(k) == old(
                                self,
                            ).task_table.get_spec(k),
                    }
                });
            assert(event_table(old(self).task_table, self.task_table, attrs.entries@, ts));
        } else {
            assert(event_table(old(self).task_table, self.task_table, attrs.entries@, ts));
        }
        assert(same_head(cur, old_cur));
        self.current = Some(cur);
        let mut task_log: Option<(u64, String)> = None;
        if eq_str(&kind, "task") {
            match task_id {
                Some(id) => match event_task_log(&attrs) {
                    Some(text) => {
                        task_log = Some((id, text));
                    },
                    None => {},
                },
                None => {},
            }
        }
        assert(progress == if kind@ == "progress"@ && attr_u64_spec(attrs.entries@, "total"@) > 0 {
            Some((attr_u64_spec(attrs.entries@, "completed"@), attr_u64_spec(attrs.entries@, "total"@)))
        } else {
            None
        });
        assert(kind@ != "task"@ ==> self.task_table == old(self).task_table);
        assert(old(self).current == Some(old_cur));
        assert(self.current matches Some(new_cur) && same_head(new_cur, old_cur));
        assert(kind@ == "progress"@ ==> (self.current matches Some(new_cur) && progress_event_view(old_cur.tasks, new_cur.tasks, attrs.entries@)));
        assert(kind@ == attr_text(attrs.entries@, "kind"@));
        match &task_log {
            Some((id, line)) => {
                assert(old(self).task_id == Some(*id));
                assert(event_task_log_spec(attrs.entries@) == Some(line@));
            },
            None => {},
        }
        assert(kind@ != "task"@ && kind@ != "progress"@ ==> self.current == Some(old_cur));
        let r = EventOutcome { applied: true, task_log, progress };
        assert(event_table(old(self).task_table, self.task_table, attrs.entries@, ts));
        assert(self.current matches Some(new_cur) && {
                        &&& same_head(new_cur, old_cur)
                        &&& if kind@ == "progress"@ {
                            &&& progress_event_view(old_cur.tasks, new_cur.tasks, attrs.entries@)
                            &&& new_cur.current_task == old_cur.current_task
                        } else if kind@ == "task"@ {
                            &&& task_event_view(old_cur.tasks, new_cur.tasks, attrs.entries@)
                            &&& if attr_text(attrs.entries@, "state"@) == "started"@ {
                                new_cur.current_task@ == task_label(
                                    attr_text(attrs.entries@, "recipe"@),
                                    attr_text(attrs.entries@, "task"@),
                                )
                            } else {
                                new_cur.current_task == old_cur.current_task
                            }
                        } else {
                            &&& new_cur.tasks == old_cur.tasks
                            &&& new_cur.current_task == old_cur.current_task
                        }
                    });
        assert(match r.task_log {
                        Some((id, line)) => {
                            &&& kind@ == "task"@
                            &&& old(self).task_id == Some(id)
                            &&& event_task_log_spec(attrs.entries@) == Some(line@)
                        },
                        None => !(kind@ == "task"@ && old(self).task_id is Some
                            && event_task_log_spec(attrs.entries@) is Some),
                    });
        r
    }

    /// Applies the event element of a `BITFORGE_EVENT:` line to build
    /// `build_id`.
    pub fn apply_event_payload(&mut self, build_id: i64, payload: &str, ts: i64) -> (r:
        EventOutcome)
        ensures
            exists|attrs: Option<Table<String>>|
                parsed_event(payload@, attrs) && event_effect(
                    *old(self),
                    *final(self),
                    build_id,
                    attrs,
                    ts,
                    r,
                ),
    {
        let attrs = parse_event_element(payload);
        let ghost parsed = attrs;
        let r = self.apply_event(build_id, attrs, ts);
        assert(parsed_event(payload@, parsed));
        r
    }

    /// Shows `message` as the current task of build `build_id`. Returns the
    /// activity to log it to, and whether the build is current (and is
    /// published).
    pub fn note(&mut self, build_id: i64, message: &str) -> (r: (bool, Option<u64>))
        ensures
            match old(self).current {
                Some(s) => if s.id == build_id {
                    &&& r == (true, old(self).task_id)
                    &&& final(self).current matches Some(t) && same_head(t, s) && t.tasks == s.tasks
                        && t.current_task@ == message@
                } else {
                    r == (false, None::<u64>) && final(self).current == old(self).current
                },
                None => r == (false, None::<u64>) && final(self).current is None,
            },
            final(self).cancel_flag == old(self).cancel_flag,
            final(self).task_id == old(self).task_id,
            final(self).task_table == old(self).task_table,
    {
        let task_id = self.task_id;
        match &mut self.current {
            Some(snapshot) => {
                if snapshot.id != build_id {
                    return (false, None);
                }
                snapshot.current_task = String::from_str(message);
                (true, task_id)
            },
            None => (false, None),
        }
    }

    /// Shows a failure message on build `build_id` before it is finalized.
    pub fn fail_message(&mut self, build_id: i64, message: &str)
        ensures
            match old(self).current {
                Some(s) => if s.id == build_id {
                    final(self).current matches Some(t) && same_head(t, s) && t.tasks == s.tasks
                        && t.current_task@ == message@
                } else {
                    final(self).current == old(self).current
                },
                None => final(self).current is None,
            },
            final(self).cancel_flag == old(self).cancel_flag,
            final(self).task_id == old(self).task_id,
            final(self).task_table == old(self).task_table,
    {
        match &mut self.current {
            Some(snapshot) => {
                if snapshot.id == build_id {
                    snapshot.current_task = String::from_str(message);
                }
            },
            None => {},
        }
    }

    /// Ends build `build_id` with `status` at `finished_at`: drops the
    /// cancellation flag and hands back the tracking activity. Returns the
    /// build's start time (`finished_at` when it is not the current build)
    /// and the activity.
    pub fn finalize(&mut self, build_id: i64, status: &str, finished_at: i64) -> (r: (
        i64,
        Option<u64>,
    ))
        ensures
            r.1 == old(self).task_id,
            final(self).task_id is None,
            final(self).cancel_flag is None,
            final(self).task_table == old(self).task_table,
            match old(self).current {
                Some(s) => if s.id == build_id {
                    &&& r.0 == s.started_at
                    &&& final(self).current matches Some(t) && {
                        &&& t.id == s.id
                        &&& t.status@ == status@
                        &&& t.target == s.target
                        &&& t.overall_progress == if status@ == "success"@ {
                            100u8
                        } else {
                            s.overall_progress
                        }
                        &&& t.current_task == s.current_task
                        &&& t.started_at == s.started_at
                        &&& t.finished_at == Some(finished_at)
                        &&& t.tasks == s.tasks
                    }
                } else {
                    r.0 == finished_at && final(self).current == old(self).current
                },
                None => r.0 == finished_at && final(self).current is None,
            },
    {
        let mut started_at = finished_at;
        match &mut self.current {
            Some(snapshot) => {
                if snapshot.id == build_id {
                    snapshot.status = String::from_str(status);
                    snapshot.finished_at = Some(finished_at);
                    started_at = snapshot.started_at;
                    if eq_str(&snapshot.status, "success") {
                        snapshot.overall_progress = 100;
                    }
                }
            },
            None => {},
        }
        self.cancel_flag = None;
        let task_id = self.task_id;
        self.task_id = None;
        (started_at, task_id)
    }
}


// ---------------------------------------------------------------------------
// The task table in display order
// ---------------------------------------------------------------------------

/// Row `a` is shown before row `b`: by status (running, failed, queued,
/// built, cached, other), then recipe, then task.
pub open spec fn row_less(a: TaskRow, b: TaskRow) -> bool {
    let oa = status_order_spec(a.status@);
    let ob = status_order_spec(b.status@);
    oa < ob || (oa == ob && (seq_less(a.recipe@, b.recipe@) || (a.recipe@ == b.recipe@ && seq_less(
        a.task@,
        b.task@,
    ))))
}

/// No row is shown after a row it precedes.
pub open spec fn rows_sorted(s: Seq<TaskRow>) -> bool {
    forall|i: int, j: int| 0 <= i < j < s.len() ==> !row_less(#[trigger] s[j], #[trigger] s[i])
}

/// The rows of the table.
pub open spec fn table_rows(entries: Seq<(String, TaskRow)>) -> Seq<TaskRow> {
    entries.map_values(|e: (String, TaskRow)| e.1)
}

pub proof fn lemma_row_less_transitive(a: TaskRow, b: TaskRow, c: TaskRow)
    requires
        row_less(a, b),
        row_less(b, c),
    ensures
        row_less(a, c),
{
    if seq_less(a.recipe@, b.recipe@) && seq_less(b.recipe@, c.recipe@) {
        lemma_less_transitive(a.recipe@, b.recipe@, c.recipe@);
    }
    if seq_less(a.task@, b.task@) && seq_less(b.task@, c.task@) {
        lemma_less_transitive(a.task@, b.task@, c.task@);
    }
}

pub proof fn lemma_row_less_asymmetric(a: TaskRow, b: TaskRow)
    requires
        row_less(a, b),
    ensures
        !row_less(b, a),
{
    if seq_less(a.recipe@, b.recipe@) {
        lemma_less_asymmetric(a.recipe@, b.recipe@);
    }
    if seq_less(a.task@, b.task@) {
        lemma_less_asymmetric(a.task@, b.task@);
    }
    lemma_less_irreflexive(a.recipe@);
    lemma_less_irreflexive(a.task@);
}

fn row_less_exec(a: &TaskRow, b: &TaskRow) -> (r: bool)
    ensures
        r == row_less(*a, *b),
{
    let oa = status_order(a.status.as_str());
    let ob = status_order(b.status.as_str());
    oa < ob || (oa == ob && (string_less(&a.recipe, &b.recipe) || (a.recipe == b.recipe
        && string_less(&a.task, &b.task))))
}

proof fn lemma_insert_to_multiset<A>(s: Seq<A>, p: int, x: A)
    requires
        0 <= p <= s.len(),
    ensures
        s.insert(p, x).to_multiset() =~= s.to_multiset().insert(x),
{
    broadcast use vstd::seq_lib::group_to_multiset_ensures;

    let t = s.insert(p, x);
    assert(t.remove(p) =~= s);
    assert(t[p] == x);
    assert(t.contains(x));
    t.to_multiset_ensures();
    s.to_multiset_ensures();
}

impl BuildManager {
    /// The rows of the task table in display order.
    pub fn task_rows(&self) -> (r: Vec<TaskRow>)
        ensures
            rows_sorted(r@),
            r@.to_multiset() == table_rows(self.task_table.entries@).to_multiset(),
    {
        broadcast use vstd::seq_lib::group_to_multiset_ensures;

        let ghost rows = table_rows(self.task_table.entries@);
        let mut out: Vec<TaskRow> = Vec::new();
        let mut i: usize = 0;
        while i < self.task_table.entries.len()
            invariant
                i <= self.task_table.entries@.len(),
                rows == table_rows(self.task_table.entries@),
                rows_sorted(out@),
                out@.to_multiset() == rows.take(i as int).to_multiset(),
            decreases self.task_table.entries@.len() - i,
        {
            let row = self.task_table.entries[i].1.copy();
            assert(rows[i as int] == row);
            let mut p: usize = 0;
            while p < out.len() && !row_less_exec(&row, &out[p])
                invariant
                    p <= out@.len(),
                    forall|q: int| 0 <= q < p ==> !row_less(row, #[trigger] out@[q]),
                decreases out@.len() - p,
            {
                p = p + 1;
            }
            let ghost before = out@;
            proof {
                lemma_insert_to_multiset(before, p as int, row);
                assert(rows.take(i + 1) =~= rows.take(i as int).push(row));
            }
            out.insert(p, row);
            assert(out@ =~= before.insert(p as int, row));
            proof {
                rows.take(i as int).to_multiset_ensures();
            }
            assert(rows.take(i as int).push(row).to_multiset() =~= rows.take(i as int).to_multiset().insert(row));
            assert(out@.to_multiset() =~= rows.take(i + 1).to_multiset());
            assert forall|a: int, b: int| 0 <= a < b < out@.len() implies !row_less(
                #[trigger] out@[b],
                #[trigger] out@[a],
            ) by {
                if b < p {
                    assert(out@[a] == before[a] && out@[b] == before[b]);
                } else if b == p {
                    assert(out@[a] == before[a]);
                } else if a == p {
                    assert(out@[b] == before[b - 1]);
                    assert(row_less(row, before[p as int]));
                    if b - 1 > p {
                        assert(!row_less(before[b - 1], before[p as int]));
                    }
                    if row_less(before[b - 1], row) {
                        lemma_row_less_transitive(before[b - 1], row, before[p as int]);
                        if b - 1 == p {
                            lemma_row_less_asymmetric(row, before[p as int]);
                        }
                    }
                } else if a < p {
                    assert(out@[a] == before[a] && out@[b] == before[b - 1]);
                } else {
                    assert(out@[a] == before[a - 1] && out@[b] == before[b - 1]);
                }
            }
            i = i + 1;
        }
        assert(rows.take(rows.len() as int) =~= rows);
        out
    }
}

} // verus!
