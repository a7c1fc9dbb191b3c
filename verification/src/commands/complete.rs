//! Marking tasks as completed.

use crate::commands::util::{checked_ids, checked_ids_of, lemma_first_missing, texts};
use crate::date::Date;
use crate::error::Error;
use crate::task::{Task, TaskView};
use crate::task_id::TaskId;
use crate::todo_file::TodoFile;
use vstd::prelude::*;

verus! {

/// What the command does, in one line.
pub fn description() -> (r: &'static str)
    ensures
        r@ == "Mark a task as completed"@,
{
    "Mark a task as completed"
}

/// The arguments that the command takes.
pub fn usage() -> (r: &'static str)
    ensures
        r@ == "<id of finished task>..."@,
{
    "<id of finished task>..."
}

/// The list `m` after the tasks with the numbers `ids` were marked as
/// completed on `today`, one after the other.
pub open spec fn completed_all(m: Map<usize, TaskView>, ids: Seq<TaskId>, today: Date) -> Map<
    usize,
    TaskView,
>
    decreases ids.len(),
{
    if ids.len() == 0 {
        m
    } else {
        let before = completed_all(m, ids.drop_last(), today);
        let id = ids.last().0;
        if before.contains_key(id) {
            before.insert(id, before[id].completed_on(today))
        } else {
            before
        }
    }
}

/// Completing tasks neither adds nor removes a number.
proof fn lemma_completed_all_dom(m: Map<usize, TaskView>, ids: Seq<TaskId>, today: Date)
    ensures
        completed_all(m, ids, today).dom() == m.dom(),
    decreases ids.len(),
{
    if ids.len() > 0 {
        lemma_completed_all_dom(m, ids.drop_last(), today);
        assert(completed_all(m, ids, today).dom() =~= m.dom());
    }
}

/// Whether `after` is the list `before` with the tasks of the numbers
/// `ids` completed on `today`, and `done` holds each of these tasks, in the
/// order of `ids`, as it stood right after its turn.
pub open spec fn completed_batch(
    before: Map<usize, TaskView>,
    after: Map<usize, TaskView>,
    ids: Seq<TaskId>,
    done: Seq<(TaskId, Task)>,
    today: Date,
) -> bool {
    &&& after == completed_all(before, ids, today)
    &&& done.len() == ids.len()
    &&& forall|i: int|
        0 <= i < ids.len() ==> (#[trigger] done[i]).0 == ids[i] && done[i].1@ == completed_all(
            before,
            ids.take(i + 1),
            today,
        )[ids[i].0]
}

/// Marks the tasks that `args` name as completed on `today`, in the order
/// of `args`, and hands out each with its number as it then stands. Where
/// the arguments are refused, the list stays as it is.
pub fn run_on(todo: &mut TodoFile, args: &[String], today: Date) -> (r: Result<
    Vec<(TaskId, Task)>,
    Error,
>)
    ensures
        match checked_ids_of(old(todo)@, texts(args@)) {
            Err(e) => r == Err::<Vec<(TaskId, Task)>, Error>(e) && final(todo)@ == old(todo)@
                && final(todo).dirty() == old(todo).dirty(),
            Ok(ids) => r matches Ok(done) && final(todo).dirty() && completed_batch(
                old(todo)@,
                final(todo)@,
                ids,
                done@,
                today,
            ),
        },
{
    let ids = match checked_ids(todo, args) {
        Err(e) => {
            return Err(e);
        },
        Ok(ids) => ids,
    };
    let ghost start = todo@;
    let mut done: Vec<(TaskId, Task)> = Vec::new();
    let mut i: usize = 0;
    proof {
        lemma_first_missing(start.dom(), ids@);
        assert(ids@.take(0) =~= Seq::<TaskId>::empty());
    }
    while i < ids.len()
        invariant
            i <= ids.len(),
            ids.len() > 0,
            forall|k: int| 0 <= k < ids.len() ==> start.dom().contains(#[trigger] ids@[k].0),
            todo@ == completed_all(start, ids@.take(i as int), today),
            i == 0 ==> todo.dirty() == old(todo).dirty(),
            i > 0 ==> todo.dirty(),
            done.len() == i,
            forall|k: int|
                0 <= k < i ==> (#[trigger] done[k]).0 == ids[k] && done[k].1@ == completed_all(
                    start,
                    ids@.take(k + 1),
                    today,
                )[ids[k].0],
        decreases ids.len() - i,
    {
        let id = ids[i];
        proof {
            lemma_completed_all_dom(start, ids@.take(i as int), today);
            assert(ids@.take(i + 1).drop_last() =~= ids@.take(i as int));
            assert(start.dom().contains(ids@[i as int].0));
        }
        match todo.complete_on(id, today) {
            Some(task) => {
                done.push((id, task.clone()));
            },
            None => {},
        }
        i += 1;
    }
    proof {
        assert(ids@.take(ids.len() as int) =~= ids@);
    }
    Ok(done)
}

/// Marks the tasks that `args` name as completed today and hands out each
/// with its number as it then stands. Where the arguments are refused, the
/// list stays as it is.
pub fn run(todo: &mut TodoFile, args: &[String]) -> (r: Result<Vec<(TaskId, Task)>, Error>)
    ensures
        match checked_ids_of(old(todo)@, texts(args@)) {
            Err(e) => r == Err::<Vec<(TaskId, Task)>, Error>(e) && final(todo)@ == old(todo)@
                && final(todo).dirty() == old(todo).dirty(),
            Ok(ids) => r matches Ok(done) && final(todo).dirty() && exists|today: Date|
                completed_batch(old(todo)@, final(todo)@, ids, done@, today),
        },
{
    let today = Date::today();
    let r = run_on(todo, args, today);
    proof {
        if let Ok(ids) = checked_ids_of(old(todo)@, texts(args@)) {
            assert(completed_batch(old(todo)@, final(todo)@, ids, r->Ok_0@, today));
        }
    }
    r
}

} // verus!
