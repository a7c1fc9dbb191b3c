//! Removing tasks.

use crate::commands::util::{checked_ids, checked_ids_of, texts};
use crate::error::Error;
use crate::task::{Task, TaskView};
use crate::task_id::TaskId;
use crate::listing::renumbered;
use crate::todo_file::TodoFile;
use vstd::prelude::*;

verus! {

/// What the command does, in one line.
pub fn description() -> (r: &'static str)
    ensures
        r@ == "Remove a task from the list"@,
{
    "Remove a task from the list"
}

/// The arguments that the command takes.
pub fn usage() -> (r: &'static str)
    ensures
        r@ == "<id of task to delete>..."@,
{
    "<id of task to delete>..."
}

/// The list `m` without the tasks that have the numbers `ids`.
pub open spec fn removed_all(m: Map<usize, TaskView>, ids: Seq<TaskId>) -> Map<usize, TaskView>
    decreases ids.len(),
{
    if ids.len() == 0 {
        m
    } else {
        removed_all(m, ids.drop_last()).remove(ids.last().0)
    }
}

/// The tasks that leave the list `m` as the numbers `ids` are taken out
/// one after the other, each with its number. A number that occurs again
/// finds no task the second time.
pub open spec fn removed_tasks(m: Map<usize, TaskView>, ids: Seq<TaskId>) -> Seq<(TaskId, TaskView)>
    decreases ids.len(),
{
    if ids.len() == 0 {
        Seq::empty()
    } else {
        let before = removed_all(m, ids.drop_last());
        let earlier = removed_tasks(m, ids.drop_last());
        if before.contains_key(ids.last().0) {
            earlier.push((ids.last(), before[ids.last().0]))
        } else {
            earlier
        }
    }
}

/// The views of the tasks that a command hands out.
pub open spec fn report_views(done: Seq<(TaskId, Task)>) -> Seq<(TaskId, TaskView)> {
    done.map_values(|e: (TaskId, Task)| (e.0, e.1@))
}

/// Removes the tasks that `args` name, in the order of `args`, hands out
/// each with the number it had, and numbers the tasks that are left anew
/// without gaps. Where the arguments are refused, the list stays as it is.
pub fn run(todo: &mut TodoFile, args: &[String]) -> (r: Result<Vec<(TaskId, Task)>, Error>)
    ensures
        match checked_ids_of(old(todo)@, texts(args@)) {
            Err(e) => r == Err::<Vec<(TaskId, Task)>, Error>(e) && final(todo)@ == old(todo)@
                && final(todo).dirty() == old(todo).dirty(),
            Ok(ids) => r matches Ok(done) && final(todo)@ == renumbered(
                removed_all(old(todo)@, ids),
            ) && final(todo).dirty() && report_views(done@) == removed_tasks(old(todo)@, ids),
        },
{
    let ids = match checked_ids(todo, args) {
        Err(e) => {
            return Err(e);
        },
        Ok(ids) => ids,
    };
    let ghost start = todo@;
    let mut done: Vec<(TaskId, Task)> = Vec::new();
    let mut i: usize = 0;
    proof {
        assert(ids@.take(0) =~= Seq::<TaskId>::empty());
        assert(report_views(done@) =~= Seq::<(TaskId, TaskView)>::empty());
    }
    while i < ids.len()
        invariant
            i <= ids.len(),
            ids.len() > 0,
            todo@ == removed_all(start, ids@.take(i as int)),
            i == 0 ==> todo.dirty() == old(todo).dirty(),
            i > 0 ==> todo.dirty(),
            report_views(done@) == removed_tasks(start, ids@.take(i as int)),
        decreases ids.len() - i,
    {
        let id = ids[i];
        proof {
            assert(ids@.take(i + 1).drop_last() =~= ids@.take(i as int));
        }
        let ghost earlier = done@;
        match todo.delete(id) {
            Some(task) => {
                done.push((id, task));
                proof {
                    assert(report_views(done@) =~= report_views(earlier).push((id, task@)));
                }
            },
            None => {},
        }
        i += 1;
    }
    proof {
        assert(ids@.take(ids.len() as int) =~= ids@);
    }
    todo.refresh_ids();
    Ok(done)
}

} // verus!
