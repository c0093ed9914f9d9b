//! The mutation operations: add, remove, complete-toggle, move, modify.
//! Each takes the decoded list, applies one change, and reports whether an
//! informational notice is owed; persistence is the caller's business.

use vstd::prelude::*;

use crate::error::StoreError;
use crate::task::Task;

verus! {

/// How many tasks of `ts` are still pending (not done).
pub open spec fn pending_count(ts: Seq<Task>) -> nat
    decreases ts.len(),
{
    if ts.len() == 0 {
        0
    } else {
        pending_count(ts.drop_last()) + if ts.last().done {
            0nat
        } else {
            1nat
        }
    }
}

/// `t` with its done flag flipped and its timestamp set to `now`.
pub open spec fn toggled(t: Task, now: i64) -> Task {
    Task { title: t.title, creation_date: now, done: !t.done }
}

/// `t` under a new title, everything else kept.
pub open spec fn retitled(t: Task, title: String) -> Task {
    Task { title, creation_date: t.creation_date, done: t.done }
}

/// The list after a successful `move_task(ts, n, p)`, both indices 1-based
/// and in range: reinsert at `p` when `p` still lies in the pending range,
/// otherwise send the task to the end of the list.
pub open spec fn moved_spec(ts: Seq<Task>, n: int, p: int) -> Seq<Task> {
    if p <= pending_count(ts) {
        ts.remove(n - 1).insert(p - 1, ts[n - 1])
    } else {
        ts.remove(n - 1).push(ts[n - 1])
    }
}

/// The list after a successful `modify_task(ts, n, title)`: retitled when
/// still pending, untouched when already done.
pub open spec fn modified_spec(ts: Seq<Task>, n: int, title: String) -> Seq<Task> {
    if ts[n - 1].done {
        ts
    } else {
        ts.update(n - 1, retitled(ts[n - 1], title))
    }
}

/// No more tasks are pending than there are tasks.
proof fn lemma_pending_count_le_len(ts: Seq<Task>)
    ensures
        pending_count(ts) <= ts.len(),
    decreases ts.len(),
{
    if ts.len() > 0 {
        lemma_pending_count_le_len(ts.drop_last());
    }
}

/// Counting pending tasks over a prefix one element longer.
proof fn lemma_pending_count_step(ts: Seq<Task>, i: int)
    requires
        0 <= i < ts.len(),
    ensures
        pending_count(ts.take(i + 1)) == pending_count(ts.take(i)) + if ts[i].done {
            0nat
        } else {
            1nat
        },
{
    assert(ts.take(i + 1).drop_last() =~= ts.take(i));
    assert(ts.take(i + 1).last() == ts[i]);
}

/// Completed tasks form a contiguous tail of the list.
pub open spec fn done_tail(ts: Seq<Task>) -> bool {
    forall|a: int, b: int| 0 <= a < b < ts.len() && ts[a].done ==> ts[b].done
}

/// Under `done_tail`, the pending count marks the boundary: a task is
/// completed exactly when its position is at or past the count.
proof fn lemma_pending_boundary(ts: Seq<Task>)
    requires
        done_tail(ts),
    ensures
        forall|i: int| 0 <= i < ts.len() ==> (ts[i].done <==> i >= pending_count(ts)),
    decreases ts.len(),
{
    lemma_pending_count_le_len(ts);
    if ts.len() > 0 {
        let dl = ts.drop_last();
        assert(done_tail(dl)) by {
            assert(forall|i: int| 0 <= i < dl.len() ==> dl[i] == ts[i]);
        }
        lemma_pending_boundary(dl);
        lemma_pending_count_le_len(dl);
        if ts.last().done {
            assert(pending_count(ts) == pending_count(dl));
            assert forall|i: int| 0 <= i < ts.len() implies (ts[i].done <==> i >= pending_count(
                ts,
            )) by {
                if i < ts.len() - 1 {
                    assert(ts[i] == dl[i]);
                }
            }
        } else {
            assert forall|a: int| 0 <= a < dl.len() implies !dl[a].done by {
                if dl[a].done {
                    assert(ts[a].done && !ts[ts.len() - 1].done);
                }
            }
            if pending_count(dl) < dl.len() {
                assert(dl[pending_count(dl) as int].done);
            }
            assert(pending_count(dl) == dl.len());
            assert(pending_count(ts) == ts.len());
            assert forall|i: int| 0 <= i < ts.len() implies (ts[i].done <==> i >= pending_count(
                ts,
            )) by {
                if i < ts.len() - 1 {
                    assert(ts[i] == dl[i]);
                }
            }
        }
    }
}

/// For a list of `k` pending tasks followed only by completed ones, a new
/// task is inserted at position `k + 1` (1-based): every pending task
/// stays before it, and every completed task stands after it.
pub proof fn lemma_add_position(ts: Seq<Task>, t: Task)
    requires
        done_tail(ts),
    ensures
        ({
            let k = pending_count(ts) as int;
            let l = ts.insert(k, t);
            &&& l[k] == t
            &&& forall|a: int| 0 <= a < k ==> !l[a].done
            &&& forall|b: int| k < b < l.len() ==> l[b].done
        }),
{
    lemma_pending_count_le_len(ts);
    lemma_pending_boundary(ts);
    let k = pending_count(ts) as int;
    let l = ts.insert(k, t);
    assert(forall|a: int| 0 <= a < k ==> l[a] == ts[a]);
    assert(forall|b: int| k < b < l.len() ==> l[b] == ts[b - 1]);
}

/// Completing a pending task marks it done, stamps it, and relocates it
/// to the list's end; completing the relocated task again marks it
/// pending once more, restamps it, and again leaves it at the end, with
/// the rest of the list untouched both times.
pub proof fn lemma_complete_twice(ts: Seq<Task>, n: int, d1: i64, d2: i64)
    requires
        1 <= n <= ts.len(),
        !ts[n - 1].done,
    ensures
        ({
            let once = ts.remove(n - 1).push(toggled(ts[n - 1], d1));
            let twice = once.remove(once.len() - 1).push(toggled(once[once.len() - 1], d2));
            &&& once.len() == ts.len()
            &&& once.last() == Task {
                title: ts[n - 1].title,
                creation_date: d1,
                done: true,
            }
            &&& twice == ts.remove(n - 1).push(
                Task { title: ts[n - 1].title, creation_date: d2, done: false },
            )
        }),
{
    let once = ts.remove(n - 1).push(toggled(ts[n - 1], d1));
    assert(once.remove(once.len() - 1) =~= ts.remove(n - 1));
    assert(once.remove(once.len() - 1).push(toggled(once[once.len() - 1], d2)) =~= ts.remove(n - 1)
        .push(Task { title: ts[n - 1].title, creation_date: d2, done: false }));
}

/// Counts the pending tasks of the list.
pub fn count_pending(tasks: &Vec<Task>) -> (r: usize)
    ensures
        r == pending_count(tasks@),
{
    let mut count: usize = 0;
    let mut i: usize = 0;
    while i < tasks.len()
        invariant
            0 <= i <= tasks@.len(),
            count == pending_count(tasks@.take(i as int)),
            count <= i,
        decreases tasks@.len() - i,
    {
        proof {
            lemma_pending_count_step(tasks@, i as int);
        }
        if !tasks[i].done {
            count = count + 1;
        }
        i = i + 1;
    }
    proof {
        assert(tasks@.take(tasks@.len() as int) =~= tasks@);
    }
    count
}

/// Inserts `task` just after the last pending task, i.e. before the first
/// completed one when completed tasks form the list's tail.
pub fn add_task(tasks: &mut Vec<Task>, task: Task)
    ensures
        final(tasks)@ == old(tasks)@.insert(pending_count(old(tasks)@) as int, task),
{
    proof {
        lemma_pending_count_le_len(tasks@);
    }
    let pos = count_pending(tasks);
    tasks.insert(pos, task);
}

/// Deletes the task at 1-based index `task_number`; the list is unchanged
/// when the index is out of range.
pub fn remove_task(tasks: &mut Vec<Task>, task_number: usize) -> (r: Result<(), StoreError>)
    ensures
        match r {
            Ok(()) => 1 <= task_number <= old(tasks)@.len()
                && final(tasks)@ == old(tasks)@.remove(task_number - 1),
            Err(e) => e == StoreError::IndexOutOfRange
                && !(1 <= task_number <= old(tasks)@.len())
                && final(tasks)@ == old(tasks)@,
        },
{
    if task_number > tasks.len() || task_number == 0 {
        return Err(StoreError::IndexOutOfRange);
    }
    tasks.remove(task_number - 1);
    Ok(())
}

/// Toggles the done flag of the task at 1-based index `task_number`, stamps
/// it with `now`, and relocates it to the end of the list, whatever the new
/// state; the list is unchanged when the index is out of range.
pub fn complete_task(tasks: &mut Vec<Task>, task_number: usize, now: i64) -> (r: Result<
    (),
    StoreError,
>)
    ensures
        match r {
            Ok(()) => 1 <= task_number <= old(tasks)@.len()
                && final(tasks)@ == old(tasks)@.remove(task_number - 1).push(
                    toggled(old(tasks)@[task_number - 1], now),
                ),
            Err(e) => e == StoreError::IndexOutOfRange
                && !(1 <= task_number <= old(tasks)@.len())
                && final(tasks)@ == old(tasks)@,
        },
{
    if task_number > tasks.len() || task_number == 0 {
        return Err(StoreError::IndexOutOfRange);
    }
    let mut task = tasks.remove(task_number - 1);
    task.done = !task.done;
    task.creation_date = now;
    tasks.push(task);
    Ok(())
}

/// Moves the task at 1-based index `task_number` to 1-based position
/// `new_position`.  A position beyond the pending range sends the task to
/// the end of the list instead; `Ok(true)` reports that a notice is owed
/// for it.  The list is unchanged when either index is out of range.
pub fn move_task(tasks: &mut Vec<Task>, task_number: usize, new_position: usize) -> (r: Result<
    bool,
    StoreError,
>)
    ensures
        match r {
            Ok(noticed) => 1 <= task_number <= old(tasks)@.len()
                && 1 <= new_position <= old(tasks)@.len()
                && final(tasks)@ == moved_spec(old(tasks)@, task_number as int, new_position as int)
                && noticed == (new_position > pending_count(old(tasks)@)),
            Err(e) => e == StoreError::IndexOutOfRange
                && !(1 <= task_number <= old(tasks)@.len() && 1 <= new_position <= old(tasks)@.len())
                && final(tasks)@ == old(tasks)@,
        },
{
    if new_position > tasks.len() || new_position == 0 || task_number > tasks.len()
        || task_number == 0 {
        return Err(StoreError::IndexOutOfRange);
    }
    let still_undone = count_pending(tasks);
    if new_position <= still_undone {
        proof {
            lemma_pending_count_le_len(tasks@);
        }
        let task = tasks.remove(task_number - 1);
        tasks.insert(new_position - 1, task);
        Ok(false)
    } else {
        let task = tasks.remove(task_number - 1);
        tasks.push(task);
        Ok(true)
    }
}

/// Replaces the title of the task at 1-based index `task_number` when it is
/// still pending; a completed task is left untouched and `Ok(true)` reports
/// that a notice is owed.  The list is unchanged when the index is out of
/// range.
pub fn modify_task(tasks: &mut Vec<Task>, task_number: usize, title: String) -> (r: Result<
    bool,
    StoreError,
>)
    ensures
        match r {
            Ok(noticed) => 1 <= task_number <= old(tasks)@.len()
                && final(tasks)@ == modified_spec(old(tasks)@, task_number as int, title)
                && noticed == old(tasks)@[task_number - 1].done,
            Err(e) => e == StoreError::IndexOutOfRange
                && !(1 <= task_number <= old(tasks)@.len())
                && final(tasks)@ == old(tasks)@,
        },
{
    if task_number > tasks.len() || task_number == 0 {
        return Err(StoreError::IndexOutOfRange);
    }
    if !tasks[task_number - 1].done {
        let mut task = tasks.remove(task_number - 1);
        task.title = title;
        tasks.insert(task_number - 1, task);
        proof {
            assert(tasks@ =~= modified_spec(old(tasks)@, task_number as int, title));
        }
        Ok(false)
    } else {
        Ok(true)
    }
}

} // verus!
