pub mod listing;
pub mod order;
pub mod tasks;
pub mod timestamp;

use vstd::prelude::*;

use crate::listing::is_listing;
use crate::tasks::{Task, TaskStatus, Tasks};
use crate::timestamp::Timestamp;

verus! {

/// Why an operation on the collection did not take place.
#[derive(Clone, Copy, Debug, PartialEq, Eq, Structural)]
pub enum TaskError {
    /// No task has this id.
    NoSuchTask(u32),
    /// The highest id in use is the largest `u32`, so a new task has no id left.
    IdsExhausted,
}

/// The highest id in `s`, or 0 when `s` is empty.
pub open spec fn max_id(s: Seq<Task>) -> nat
    decreases s.len(),
{
    if s.len() == 0 {
        0
    } else if s.last().id as nat > max_id(s.drop_last()) {
        s.last().id as nat
    } else {
        max_id(s.drop_last())
    }
}

/// The ids in `s`.
pub open spec fn ids(s: Seq<Task>) -> Set<nat> {
    Set::new(|n: nat| exists|i: int| 0 <= i < s.len() && s[i].id as nat == n)
}

/// No two tasks of `s` share an id.
pub open spec fn ids_unique(s: Seq<Task>) -> bool {
    forall|p: int, q: int| 0 <= p < q < s.len() ==> s[p].id != s[q].id
}

/// `i` is the first position of `s` that holds a task with id `id`.
pub open spec fn first_with_id(s: Seq<Task>, id: u32, i: int) -> bool {
    0 <= i < s.len() && s[i].id == id && forall|j: int| 0 <= j < i ==> s[j].id != id
}

pub open spec fn has_id(s: Seq<Task>, id: u32) -> bool {
    exists|i: int| 0 <= i < s.len() && s[i].id == id
}

/// `s` after the task at `i` has been taken out and appended, as `t`.
pub open spec fn moved_to_end(s: Seq<Task>, i: int, t: Task) -> Seq<Task> {
    s.remove(i).push(t)
}

/// `max_id` is the largest id in use, and 0 when there is no task; so
/// `get_next_task_id` gives one more than the largest id, or 1 for none.
pub proof fn lemma_max_id(s: Seq<Task>)
    ensures
        s.len() == 0 ==> max_id(s) == 0,
        s.len() > 0 ==> ids(s).contains(max_id(s)),
        forall|n: nat| ids(s).contains(n) ==> n <= max_id(s),
    decreases s.len(),
{
    if s.len() > 0 {
        let p = s.drop_last();
        lemma_max_id(p);
        assert(s.last() == s[s.len() - 1]);
        if max_id(s) != s.last().id as nat {
            let k = choose|k: int| 0 <= k < p.len() && p[k].id as nat == max_id(p);
            assert(s[k] == p[k]);
        }
        assert forall|n: nat| ids(s).contains(n) implies n <= max_id(s) by {
            let k = choose|k: int| 0 <= k < s.len() && s[k].id as nat == n;
            if k < p.len() {
                assert(s[k] == p[k]);
                assert(ids(p).contains(n));
            }
        }
    }
}

/// Moving a task to the end, its id kept, keeps the ids unique.
pub proof fn lemma_move_keeps_ids_unique(s: Seq<Task>, i: int, t: Task)
    requires
        ids_unique(s),
        0 <= i < s.len(),
        t.id == s[i].id,
    ensures
        ids_unique(moved_to_end(s, i, t)),
{
    let r = s.remove(i);
    let m = moved_to_end(s, i, t);
    assert forall|k: int| 0 <= k < r.len() implies #[trigger] r[k] == s[if k < i {
        k
    } else {
        k + 1
    }] by {}
    assert forall|p: int, q: int| 0 <= p < q < m.len() implies m[p].id != m[q].id by {
        let sp = if p < i {
            p
        } else {
            p + 1
        };
        assert(m[p] == r[p]);
        assert(r[p] == s[sp]);
        if q < m.len() - 1 {
            assert(m[q] == r[q]);
            let sq = if q < i {
                q
            } else {
                q + 1
            };
            assert(r[q] == s[sq]);
        } else {
            assert(m[q] == t);
        }
    }
}

/// The highest id in use, or 0 when there is no task.
pub fn highest_task_id(tasks: &Vec<Task>) -> (r: u32)
    ensures
        r == max_id(tasks@),
{
    let mut highest_id: u32 = 0;
    let n = tasks.len();
    let mut i: usize = 0;
    while i < n
        invariant
            n == tasks@.len(),
            i <= n,
            highest_id == max_id(tasks@.take(i as int)),
        decreases n - i,
    {
        assert(tasks@.take(i + 1).drop_last() =~= tasks@.take(i as int));
        assert(tasks@.take(i + 1).last() == tasks@[i as int]);
        if tasks[i].id > highest_id {
            highest_id = tasks[i].id;
        }
        i = i + 1;
    }
    assert(tasks@.take(n as int) =~= tasks@);
    highest_id
}

/// The id for a new task: one more than the highest id in use, 1 for none.
pub fn get_next_task_id(tasks: &Vec<Task>) -> (r: u32)
    requires
        max_id(tasks@) < u32::MAX,
    ensures
        r == max_id(tasks@) + 1,
{
    highest_task_id(tasks) + 1
}

/// The first position of a task with id `id`.
fn position(tasks: &Vec<Task>, id: u32) -> (r: Option<usize>)
    ensures
        r matches Some(i) ==> first_with_id(tasks@, id, i as int),
        r is None ==> !has_id(tasks@, id),
{
    let n = tasks.len();
    let mut i: usize = 0;
    while i < n
        invariant
            n == tasks@.len(),
            i <= n,
            forall|j: int| 0 <= j < i ==> tasks@[j].id != id,
        decreases n - i,
    {
        if tasks[i].id == id {
            return Some(i);
        }
        i = i + 1;
    }
    None
}

/// Appends a new task to do, with the next id, stamped `now`.
pub fn add(tasks: &mut Tasks, description: String, now: Timestamp) -> (r: Result<u32, TaskError>)
    ensures
        r is Err <==> max_id(old(tasks).tasks@) == u32::MAX,
        r is Err ==> r == Err::<u32, TaskError>(TaskError::IdsExhausted),
        r is Err ==> final(tasks).tasks@ == old(tasks).tasks@,
        r matches Ok(id) ==> id == max_id(old(tasks).tasks@) + 1,
        r matches Ok(id) ==> final(tasks).tasks@ == old(tasks).tasks@.push(
            (Task { id, description, status: TaskStatus::Todo, updated_at: now }),
        ),
        ids_unique(old(tasks).tasks@) ==> ids_unique(final(tasks).tasks@),
{
    if highest_task_id(&tasks.tasks) == u32::MAX {
        return Err(TaskError::IdsExhausted);
    }
    let id = get_next_task_id(&tasks.tasks);
    let ghost before = tasks.tasks@;
    tasks.tasks.push(Task { id, description, status: TaskStatus::Todo, updated_at: now });
    proof {
        lemma_max_id(before);
        assert forall|k: int| 0 <= k < before.len() implies before[k].id < id by {
            assert(ids(before).contains(before[k].id as nat));
        }
    }
    Ok(id)
}

/// Marks the task with id `task_id` in progress and moves it to the end.
pub fn start(tasks: &mut Tasks, task_id: u32) -> (r: Result<(), TaskError>)
    ensures
        r is Ok <==> has_id(old(tasks).tasks@, task_id),
        r is Err ==> r == Err::<(), TaskError>(TaskError::NoSuchTask(task_id)),
        r is Err ==> final(tasks).tasks@ == old(tasks).tasks@,
        r is Ok ==> exists|i: int|
            first_with_id(old(tasks).tasks@, task_id, i) && final(tasks).tasks@ == moved_to_end(
                old(tasks).tasks@,
                i,
                (Task { status: TaskStatus::InProgress, ..old(tasks).tasks@[i] }),
            ),
        ids_unique(old(tasks).tasks@) ==> ids_unique(final(tasks).tasks@),
{
    match position(&tasks.tasks, task_id) {
        None => Err(TaskError::NoSuchTask(task_id)),
        Some(i) => {
            let mut task = tasks.tasks.remove(i);
            task.status = TaskStatus::InProgress;
            let ghost before = old(tasks).tasks@;
            proof {
                if ids_unique(before) {
                    lemma_move_keeps_ids_unique(before, i as int, task);
                }
            }
            tasks.tasks.push(task);
            Ok(())
        },
    }
}

/// Marks the task with id `task_id` done, stamps it `now` and moves it to the end.
pub fn finish(tasks: &mut Tasks, task_id: u32, now: Timestamp) -> (r: Result<(), TaskError>)
    ensures
        r is Ok <==> has_id(old(tasks).tasks@, task_id),
        r is Err ==> r == Err::<(), TaskError>(TaskError::NoSuchTask(task_id)),
        r is Err ==> final(tasks).tasks@ == old(tasks).tasks@,
        r is Ok ==> exists|i: int|
            first_with_id(old(tasks).tasks@, task_id, i) && final(tasks).tasks@ == moved_to_end(
                old(tasks).tasks@,
                i,
                (Task { status: TaskStatus::Done, updated_at: now, ..old(tasks).tasks@[i] }),
            ),
        ids_unique(old(tasks).tasks@) ==> ids_unique(final(tasks).tasks@),
{
    match position(&tasks.tasks, task_id) {
        None => Err(TaskError::NoSuchTask(task_id)),
        Some(i) => {
            let mut task = tasks.tasks.remove(i);
            task.status = TaskStatus::Done;
            task.updated_at = now;
            let ghost before = old(tasks).tasks@;
            proof {
                if ids_unique(before) {
                    lemma_move_keeps_ids_unique(before, i as int, task);
                }
            }
            tasks.tasks.push(task);
            Ok(())
        },
    }
}

/// The listing of the collection, as `Tasks::to_string` renders it.
pub fn list(tasks: &Tasks) -> (r: String)
    ensures
        is_listing(tasks.tasks@, r@),
{
    tasks.to_string()
}

/// The collection that was read: what parsed, or an empty one when the stored
/// text did not parse.
pub fn tasks_or_empty(parsed: Option<Tasks>) -> (r: Tasks)
    ensures
        parsed matches Some(t) ==> r == t,
        parsed is None ==> r.tasks@.len() == 0,
{
    match parsed {
        Some(t) => t,
        None => Tasks { tasks: Vec::new() },
    }
}

} // verus!
