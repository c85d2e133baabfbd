//! The task store: the collection of one backing file and every operation on it.
use vstd::prelude::*;
use std::path::PathBuf;
use crate::laws::lemma_ids_stay_unique;
use crate::listing::{blank_table, cells, draw_blank_table, insert_pos, lemma_insert_pos_at, listing, table_of};
use crate::task::{row_of, TaskItem, TaskView};
use crate::text::{answer_is_yes, counted, lower_of, pluralize, trimmed_of};

verus! {

#[verifier::external_type_specification]
#[verifier::external_body]
pub struct ExPathBuf(PathBuf);

/// The largest id in a collection, 0 when it is empty.
pub open spec fn max_id(s: Seq<TaskView>) -> nat
    decreases s.len(),
{
    if s.len() == 0 {
        0
    } else {
        let m = max_id(s.drop_last());
        let l = s.last().id as nat;
        if l > m { l } else { m }
    }
}

/// The position of the first task with the given id, or -1 when there is none.
pub open spec fn index_of(s: Seq<TaskView>, id: u32) -> int
    decreases s.len(),
{
    if s.len() == 0 {
        -1
    } else if s[0].id == id {
        0
    } else {
        let k = index_of(s.drop_first(), id);
        if k < 0 { -1 } else { k + 1 }
    }
}

/// Whether some task of the collection has the given id.
pub open spec fn has_id(s: Seq<TaskView>, id: u32) -> bool {
    exists|i: int| 0 <= i < s.len() && s[i].id == id
}

/// No two tasks of the collection share an id.
pub open spec fn ids_unique(s: Seq<TaskView>) -> bool {
    forall|i: int, j: int| 0 <= i < s.len() && 0 <= j < s.len() && i != j ==> s[i].id != s[j].id
}

/// The id that the next added task gets.
pub open spec fn next_id(s: Seq<TaskView>) -> nat {
    max_id(s) + 1
}

/// The collection after adding a task with the next id.
pub open spec fn added(s: Seq<TaskView>, task: Seq<char>) -> Seq<TaskView> {
    s.push(TaskView { id: next_id(s) as u32, task, done: false })
}

/// The collection after giving the task with the given id a new description;
/// unchanged when no task has that id.
pub open spec fn described(s: Seq<TaskView>, id: u32, task: Seq<char>) -> Seq<TaskView> {
    let i = index_of(s, id);
    if i < 0 {
        s
    } else {
        s.update(i, TaskView { id: s[i].id, task, done: s[i].done })
    }
}

/// The collection after setting the done flag of the task with the given id;
/// unchanged when no task has that id.
pub open spec fn marked(s: Seq<TaskView>, id: u32, done: bool) -> Seq<TaskView> {
    let i = index_of(s, id);
    if i < 0 {
        s
    } else {
        s.update(i, TaskView { id: s[i].id, task: s[i].task, done })
    }
}

/// The collection without the task with the given id; unchanged when no task
/// has that id.
pub open spec fn deleted(s: Seq<TaskView>, id: u32) -> Seq<TaskView> {
    let i = index_of(s, id);
    if i < 0 {
        s
    } else {
        s.remove(i)
    }
}

/// The collection after the tasks with ids `id1` and `id2` exchange their ids,
/// each staying at its position; unchanged when either id is missing.
pub open spec fn swapped(s: Seq<TaskView>, id1: u32, id2: u32) -> Seq<TaskView> {
    let i1 = index_of(s, id1);
    let i2 = index_of(s, id2);
    if i1 < 0 || i2 < 0 {
        s
    } else {
        s.update(i1, TaskView { id: id2, task: s[i1].task, done: s[i1].done }).update(
            i2,
            TaskView { id: id1, task: s[i2].task, done: s[i2].done },
        )
    }
}

/// The number of done tasks.
pub open spec fn done_count(s: Seq<TaskView>) -> nat
    decreases s.len(),
{
    if s.len() == 0 {
        0
    } else {
        done_count(s.drop_last()) + if s.last().done { 1nat } else { 0nat }
    }
}

/// Why an operation left the collection as it was.
#[derive(Debug, Clone, Copy, PartialEq, Eq, Structural)]
pub enum StoreError {
    /// No task has the id that the operation names.
    TaskNotFound,
    /// No task has the first id of a swap.
    FirstNotFound,
    /// No task has the second id of a swap.
    SecondNotFound,
    /// The largest id is already the largest that an id can be.
    NoIdLeft,
}

/// The question asked before emptying a collection of `n` tasks.
pub open spec fn reset_prompt(n: nat) -> Seq<char> {
    "Are you sure you want to permanently delete "@ + counted(n, "task"@, "tasks"@) + " (y/N)?"@
}

/// How many tasks are done, not done, and in all.
#[derive(Debug, Clone, Copy, PartialEq, Eq, Structural)]
pub struct TaskCounts {
    pub done: usize,
    pub remaining: usize,
    pub total: usize,
}

/// What a reset asks of its caller.
pub enum ResetStep {
    /// The collection is empty: nothing to do, nothing to write.
    Nothing,
    /// The collection was emptied and must be written.
    Cleared,
    /// The operator must be asked this question; the answer goes to
    /// `confirm_reset`.
    Confirm(String),
}

impl StoreError {
    /// The sentence shown to the operator.
    pub fn message(&self) -> (r: &'static str)
        ensures
            *self == StoreError::TaskNotFound ==> r@ == "Task not found"@,
            *self == StoreError::FirstNotFound ==> r@ == "Task 1 not found"@,
            *self == StoreError::SecondNotFound ==> r@ == "Task 2 not found"@,
            *self == StoreError::NoIdLeft ==> r@ == "No task id left"@,
    {
        match self {
            StoreError::TaskNotFound => "Task not found",
            StoreError::FirstNotFound => "Task 1 not found",
            StoreError::SecondNotFound => "Task 2 not found",
            StoreError::NoIdLeft => "No task id left",
        }
    }
}

/// The collection of one backing file, held in memory for one operation.
///
/// Every operation that returns `Ok` changed the collection, which must then
/// be written back whole; one that returns `Err` left it exactly as it was,
/// and nothing is to be written.
pub struct TaskStore {
    path: PathBuf,
    tasks: Vec<TaskItem>,
}

impl View for TaskStore {
    type V = Seq<TaskView>;

    closed spec fn view(&self) -> Seq<TaskView> {
        self.tasks@.map_values(|t: TaskItem| t@)
    }
}

pub(crate) proof fn lemma_index_of_at(s: Seq<TaskView>, id: u32, i: int)
    requires
        0 <= i <= s.len(),
        forall|j: int| 0 <= j < i ==> s[j].id != id,
        i < s.len() ==> s[i].id == id,
    ensures
        index_of(s, id) == if i < s.len() { i } else { -1 },
    decreases i,
{
    if i > 0 {
        assert forall|j: int| 0 <= j < i - 1 implies s.drop_first()[j].id != id by {
            assert(s[j + 1].id != id);
        }
        lemma_index_of_at(s.drop_first(), id, i - 1);
    }
}

/// `index_of` names a task with that id exactly when one exists, and the
/// first such task.
pub proof fn lemma_index_of(s: Seq<TaskView>, id: u32)
    ensures
        -1 <= index_of(s, id) < s.len(),
        index_of(s, id) >= 0 <==> has_id(s, id),
        index_of(s, id) >= 0 ==> s[index_of(s, id)].id == id,
        forall|j: int| 0 <= j < index_of(s, id) ==> s[j].id != id,
    decreases s.len(),
{
    if s.len() > 0 {
        lemma_index_of(s.drop_first(), id);
        if s[0].id != id {
            if has_id(s, id) {
                let i = choose|i: int| 0 <= i < s.len() && s[i].id == id;
                assert(s.drop_first()[i - 1].id == id);
            }
            if has_id(s.drop_first(), id) {
                let i = choose|i: int| 0 <= i < s.len() - 1 && s.drop_first()[i].id == id;
                assert(s[i + 1].id == id);
            }
            assert forall|j: int| 0 <= j < index_of(s, id) implies s[j].id != id by {
                if j > 0 {
                    assert(s[j] == s.drop_first()[j - 1]);
                }
            }
        }
    }
}

/// No task has an id above the largest id, and a non-empty collection has a
/// task with the largest id.
pub proof fn lemma_max_id(s: Seq<TaskView>)
    ensures
        max_id(s) <= u32::MAX,
        forall|j: int| 0 <= j < s.len() ==> s[j].id <= max_id(s),
        s.len() > 0 ==> has_id(s, max_id(s) as u32),
    decreases s.len(),
{
    if s.len() > 0 {
        lemma_max_id(s.drop_last());
        assert forall|j: int| 0 <= j < s.len() implies s[j].id <= max_id(s) by {
            if j < s.len() - 1 {
                assert(s[j] == s.drop_last()[j]);
            }
        }
        if s.last().id as nat <= max_id(s.drop_last()) && s.len() > 1 {
            let i = choose|i: int|
                0 <= i < s.len() - 1 && s.drop_last()[i].id == max_id(s.drop_last()) as u32;
            assert(s[i].id == max_id(s) as u32);
        } else {
            assert(s[s.len() - 1].id == max_id(s) as u32);
        }
    }
}

proof fn lemma_done_count_bound(s: Seq<TaskView>)
    ensures
        done_count(s) <= s.len(),
    decreases s.len(),
{
    if s.len() > 0 {
        lemma_done_count_bound(s.drop_last());
    }
}

impl TaskStore {
    /// Where the collection is kept.
    pub closed spec fn location(&self) -> PathBuf {
        self.path
    }

    /// A store for the file at `path`, holding no task yet.
    pub fn new(path: PathBuf) -> (r: TaskStore)
        ensures
            r@ == Seq::<TaskView>::empty(),
            r.location() == path,
    {
        TaskStore { path, tasks: Vec::new() }
    }

    /// A store for the file at `path` holding what was read from it: the
    /// tasks when the file could be read and parsed, no task otherwise.
    pub fn load(path: PathBuf, stored: Option<Vec<TaskItem>>) -> (r: TaskStore)
        ensures
            r.location() == path,
            r@ == match stored {
                Some(v) => v@.map_values(|t: TaskItem| t@),
                None => Seq::<TaskView>::empty(),
            },
    {
        match stored {
            Some(tasks) => TaskStore { path, tasks },
            None => TaskStore::new(path),
        }
    }

    /// Where the collection is kept.
    pub fn path(&self) -> (r: &PathBuf)
        ensures
            *r == self.location(),
    {
        &self.path
    }

    /// The tasks, in the order in which they are stored.
    pub fn tasks(&self) -> (r: &Vec<TaskItem>)
        ensures
            r@.map_values(|t: TaskItem| t@) == self@,
    {
        &self.tasks
    }

    /// The largest id in the collection, 0 when it is empty.
    pub fn max_id(&self) -> (r: u32)
        ensures
            r == max_id(self@),
    {
        let ghost s = self@;
        let mut m: u32 = 0;
        let mut i: usize = 0;
        while i < self.tasks.len()
            invariant
                s == self@,
                0 <= i <= s.len(),
                m == max_id(s.subrange(0, i as int)),
            decreases s.len() - i,
        {
            assert(s.subrange(0, i + 1).drop_last() =~= s.subrange(0, i as int));
            if self.tasks[i].id > m {
                m = self.tasks[i].id;
            }
            i = i + 1;
        }
        assert(s.subrange(0, i as int) =~= s);
        m
    }

    /// The position of the first task with the given id.
    pub fn position(&self, id: u32) -> (r: Option<usize>)
        ensures
            match r {
                Some(i) => i as int == index_of(self@, id),
                None => index_of(self@, id) < 0,
            },
    {
        let ghost s = self@;
        let mut i: usize = 0;
        while i < self.tasks.len()
            invariant
                s == self@,
                0 <= i <= s.len(),
                forall|j: int| 0 <= j < i ==> s[j].id != id,
            decreases s.len() - i,
        {
            if self.tasks[i].id == id {
                proof {
                    lemma_index_of_at(s, id, i as int);
                }
                return Some(i);
            }
            i = i + 1;
        }
        proof {
            lemma_index_of_at(s, id, i as int);
        }
        None
    }

    /// Adds a task, not done, whose id is one above the largest id in the
    /// collection (1 in an empty one), and returns that id. Fails when the
    /// largest id is the largest that an id can be.
    pub fn add_task(&mut self, task: String) -> (r: Result<u32, StoreError>)
        ensures
            final(self).location() == old(self).location(),
            max_id(old(self)@) < u32::MAX ==> r == Ok::<u32, StoreError>(next_id(old(self)@) as u32)
                && final(self)@ == added(old(self)@, task@),
            max_id(old(self)@) == u32::MAX ==> r == Err::<u32, StoreError>(StoreError::NoIdLeft)
                && final(self)@ == old(self)@,
            ids_unique(old(self)@) ==> ids_unique(final(self)@),
    {
        proof {
            lemma_max_id(self@);
            if ids_unique(self@) {
                lemma_ids_stay_unique(self@, 0, 0, task@, false);
            }
        }
        let m = self.max_id();
        if m == u32::MAX {
            return Err(StoreError::NoIdLeft);
        }
        let id = m + 1;
        self.tasks.push(TaskItem::new(id, task));
        assert(self@ =~= added(old(self)@, task@));
        Ok(id)
    }

    /// Gives the task with the given id a new description, its done flag
    /// untouched.
    pub fn update_task(&mut self, id: u32, task: String) -> (r: Result<(), StoreError>)
        ensures
            final(self).location() == old(self).location(),
            r is Ok <==> has_id(old(self)@, id),
            r is Err ==> r == Err::<(), StoreError>(StoreError::TaskNotFound),
            final(self)@ == described(old(self)@, id, task@),
            r is Err ==> final(self)@ == old(self)@,
            ids_unique(old(self)@) ==> ids_unique(final(self)@),
    {
        proof {
            lemma_index_of(self@, id);
            if ids_unique(self@) {
                lemma_ids_stay_unique(self@, id, id, task@, false);
            }
        }
        match self.position(id) {
            None => Err(StoreError::TaskNotFound),
            Some(i) => {
                let ghost before = self@;
                let done = self.tasks[i].done;
                self.tasks.set(i, TaskItem { id, task, done });
                assert(self@ =~= described(before, id, task@));
                Ok(())
            },
        }
    }

    /// Sets the done flag of the task with the given id.
    pub fn mark_task(&mut self, id: u32, done: bool) -> (r: Result<(), StoreError>)
        ensures
            final(self).location() == old(self).location(),
            r is Ok <==> has_id(old(self)@, id),
            r is Err ==> r == Err::<(), StoreError>(StoreError::TaskNotFound),
            final(self)@ == marked(old(self)@, id, done),
            r is Err ==> final(self)@ == old(self)@,
            ids_unique(old(self)@) ==> ids_unique(final(self)@),
    {
        proof {
            lemma_index_of(self@, id);
            if ids_unique(self@) {
                lemma_ids_stay_unique(self@, id, id, Seq::empty(), done);
            }
        }
        match self.position(id) {
            None => Err(StoreError::TaskNotFound),
            Some(i) => {
                let ghost before = self@;
                let t = self.tasks[i].task.clone();
                self.tasks.set(i, TaskItem { id, task: t, done });
                assert(self@ =~= marked(before, id, done));
                Ok(())
            },
        }
    }

    /// Removes the task with the given id; the other tasks keep their ids.
    pub fn delete_task(&mut self, id: u32) -> (r: Result<(), StoreError>)
        ensures
            final(self).location() == old(self).location(),
            r is Ok <==> has_id(old(self)@, id),
            r is Err ==> r == Err::<(), StoreError>(StoreError::TaskNotFound),
            final(self)@ == deleted(old(self)@, id),
            r is Err ==> final(self)@ == old(self)@,
            ids_unique(old(self)@) ==> ids_unique(final(self)@),
    {
        proof {
            lemma_index_of(self@, id);
            if ids_unique(self@) {
                lemma_ids_stay_unique(self@, id, id, Seq::empty(), false);
            }
        }
        match self.position(id) {
            None => Err(StoreError::TaskNotFound),
            Some(i) => {
                let ghost before = self@;
                self.tasks.remove(i);
                assert(self@ =~= deleted(before, id));
                Ok(())
            },
        }
    }

    /// Exchanges the ids of the tasks with ids `id1` and `id2`; descriptions
    /// and done flags stay at their positions.
    pub fn swap_tasks(&mut self, id1: u32, id2: u32) -> (r: Result<(), StoreError>)
        ensures
            final(self).location() == old(self).location(),
            r is Ok <==> has_id(old(self)@, id1) && has_id(old(self)@, id2),
            !has_id(old(self)@, id1) ==> r == Err::<(), StoreError>(StoreError::FirstNotFound),
            has_id(old(self)@, id1) && !has_id(old(self)@, id2) ==> r == Err::<(), StoreError>(
                StoreError::SecondNotFound,
            ),
            final(self)@ == swapped(old(self)@, id1, id2),
            r is Err ==> final(self)@ == old(self)@,
            ids_unique(old(self)@) ==> ids_unique(final(self)@),
    {
        proof {
            lemma_index_of(self@, id1);
            lemma_index_of(self@, id2);
            if ids_unique(self@) {
                lemma_ids_stay_unique(self@, id1, id2, Seq::empty(), false);
            }
        }
        let i1 = match self.position(id1) {
            None => {
                return Err(StoreError::FirstNotFound);
            },
            Some(i) => i,
        };
        let i2 = match self.position(id2) {
            None => {
                return Err(StoreError::SecondNotFound);
            },
            Some(i) => i,
        };
        let ghost before = self@;
        let t1 = self.tasks[i1].task.clone();
        let d1 = self.tasks[i1].done;
        self.tasks.set(i1, TaskItem { id: id2, task: t1, done: d1 });
        let t2 = self.tasks[i2].task.clone();
        let d2 = self.tasks[i2].done;
        self.tasks.set(i2, TaskItem { id: id1, task: t2, done: d2 });
        assert(self@ =~= swapped(before, id1, id2));
        Ok(())
    }

    /// The first step of emptying the collection. An empty collection is
    /// left alone and nothing is written. Otherwise, with `force`, it is
    /// emptied at once; without it, the collection stays as it is until the
    /// operator's answer comes back through `confirm_reset`.
    pub fn reset_tasks(&mut self, force: bool) -> (r: ResetStep)
        ensures
            final(self).location() == old(self).location(),
            old(self)@.len() == 0 ==> r is Nothing && final(self)@ == old(self)@,
            old(self)@.len() > 0 && force ==> r is Cleared && final(self)@ == Seq::<TaskView>::empty(),
            old(self)@.len() > 0 && !force ==> final(self)@ == old(self)@ && match r {
                ResetStep::Confirm(q) => q@ == reset_prompt(old(self)@.len()),
                _ => false,
            },
    {
        if self.tasks.len() == 0 {
            return ResetStep::Nothing;
        }
        if force {
            self.tasks.clear();
            assert(self@ =~= Seq::<TaskView>::empty());
            return ResetStep::Cleared;
        }
        proof {
            reveal_strlit("task");
            reveal_strlit("tasks");
        }
        let mut q = String::from_str("Are you sure you want to permanently delete ");
        let n = pluralize(self.tasks.len(), "task", "tasks");
        q.append(n.as_str());
        q.append(" (y/N)?");
        ResetStep::Confirm(q)
    }

    /// The second step of a reset that was not forced: empties the collection
    /// when the operator's answer, lower-cased and trimmed, is exactly `y`,
    /// and says whether it did. When it did, the empty collection must be
    /// written; when it did not, nothing changed and nothing is written.
    pub fn confirm_reset(&mut self, answer: &str) -> (r: bool)
        ensures
            final(self).location() == old(self).location(),
            r == (trimmed_of(lower_of(answer@)) == seq!['y']),
            r ==> final(self)@ == Seq::<TaskView>::empty(),
            !r ==> final(self)@ == old(self)@,
    {
        if answer_is_yes(answer) {
            self.tasks.clear();
            assert(self@ =~= Seq::<TaskView>::empty());
            true
        } else {
            false
        }
    }

    /// How many tasks are done, how many are not, and how many there are.
    pub fn infos(&self) -> (r: TaskCounts)
        ensures
            r.done == done_count(self@),
            r.total == self@.len(),
            r.remaining == self@.len() - done_count(self@),
    {
        let ghost s = self@;
        let mut d: usize = 0;
        let mut i: usize = 0;
        while i < self.tasks.len()
            invariant
                s == self@,
                0 <= i <= s.len(),
                d == done_count(s.subrange(0, i as int)),
                d <= i,
            decreases s.len() - i,
        {
            assert(s.subrange(0, i + 1).drop_last() =~= s.subrange(0, i as int));
            if self.tasks[i].done {
                d = d + 1;
            }
            i = i + 1;
        }
        assert(s.subrange(0, i as int) =~= s);
        TaskCounts { done: d, remaining: self.tasks.len() - d, total: self.tasks.len() }
    }

    /// The shown tasks (all of them with `all`, the open ones without it) in
    /// ascending id order; tasks with equal ids keep their stored order.
    pub fn listed(&self, all: bool) -> (r: Vec<TaskItem>)
        ensures
            r@.map_values(|t: TaskItem| t@) == listing(self@, all),
    {
        let ghost s = self@;
        let mut out: Vec<TaskItem> = Vec::new();
        let mut k: usize = 0;
        assert(s.subrange(0, 0) =~= Seq::<TaskView>::empty());
        assert(out@.map_values(|t: TaskItem| t@) =~= Seq::<TaskView>::empty());
        while k < self.tasks.len()
            invariant
                s == self@,
                0 <= k <= s.len(),
                out@.map_values(|t: TaskItem| t@) == listing(s.subrange(0, k as int), all),
            decreases s.len() - k,
        {
            assert(s.subrange(0, k + 1).drop_last() =~= s.subrange(0, k as int));
            assert(s.subrange(0, k + 1).last() == s[k as int]);
            let t = &self.tasks[k];
            if all || !t.done {
                let ghost o = out@.map_values(|t: TaskItem| t@);
                let mut p: usize = 0;
                while p < out.len() && out[p].id <= t.id
                    invariant
                        o == out@.map_values(|t: TaskItem| t@),
                        0 <= p <= out.len(),
                        forall|j: int| 0 <= j < p ==> o[j].id <= t.id,
                    decreases out.len() - p,
                {
                    p = p + 1;
                }
                proof {
                    lemma_insert_pos_at(o, t.id, p as int);
                }
                out.insert(p, t.duplicate());
                assert(out@.map_values(|t: TaskItem| t@) =~= o.insert(p as int, t@));
            }
            k = k + 1;
        }
        assert(s.subrange(0, k as int) =~= s);
        out
    }

    /// The cells of the list's table: a header row of three empty cells,
    /// then the id, checkbox and description of each shown task in
    /// ascending id order.
    pub fn table_rows(&self, all: bool) -> (r: Vec<Vec<String>>)
        ensures
            cells(r@) == table_of(listing(self@, all)),
    {
        let shown = self.listed(all);
        let ghost l = shown@.map_values(|t: TaskItem| t@);
        let mut rows: Vec<Vec<String>> = Vec::new();
        let mut header: Vec<String> = Vec::new();
        header.push(String::new());
        header.push(String::new());
        header.push(String::new());
        rows.push(header);
        assert(cells(rows@)[0] =~= table_of(l)[0]);
        let mut i: usize = 0;
        while i < shown.len()
            invariant
                l == shown@.map_values(|t: TaskItem| t@),
                0 <= i <= shown.len(),
                cells(rows@) =~= table_of(l.subrange(0, i as int)),
            decreases shown.len() - i,
        {
            rows.push(shown[i].row());
            assert(table_of(l.subrange(0, i + 1)) =~= table_of(l.subrange(0, i as int)).push(row_of(l[i as int])));
            i = i + 1;
        }
        assert(l.subrange(0, i as int) =~= l);
        rows
    }

    /// The list as the operator sees it: the table of `table_rows`, drawn by
    /// tabled in its blank style.
    pub fn list_tasks(&self, all: bool) -> (r: String)
        ensures
            r@ == blank_table(table_of(listing(self@, all))),
    {
        draw_blank_table(self.table_rows(all))
    }
}

} // verus!
