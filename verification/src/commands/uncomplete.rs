//! Marking tasks as open again.

use crate::commands::util::{checked_ids, checked_ids_of, lemma_first_missing, texts};
use crate::error::Error;
use crate::task::{Task, TaskView};
use crate::task_id::TaskId;
use crate::todo_file::TodoFile;
use vstd::prelude::*;

verus! {

/// What the command does, in one line.
pub fn description() -> (r: &'static str)
    ensures
        r@ == "Mark a previously finished task as uncompleted"@,
{
    "Mark a previously finished task as uncompleted"
}

/// The arguments that the command takes.
pub fn usage() -> (r: &'static str)
    ensures
        r@ == "<id of finished task>..."@,
{
    "<id of finished task>..."
}

/// The list `m` after the tasks with the numbers `ids` were marked as open
/// again, one after the other.
pub open spec fn uncompleted_all(m: Map<usize, TaskView>, ids: Seq<TaskId>) -> Map<usize, TaskView>
    decreases ids.len(),
{
    if ids.len() == 0 {
        m
    } else {
        let before = uncompleted_all(m, ids.drop_last());
        let id = ids.last().0;
        if before.contains_key(id) {
            before.insert(id, before[id].uncompleted())
        } else {
            before
        }
    }
}

/// Marking tasks as open neither adds nor removes a number.
proof fn lemma_uncompleted_all_dom(m: Map<usize, TaskView>, ids: Seq<TaskId>)
    ensures
        uncompleted_all(m, ids).dom() == m.dom(),
    decreases ids.len(),
{
    if ids.len() > 0 {
        lemma_uncompleted_all_dom(m, ids.drop_last());
        assert(uncompleted_all(m, ids).dom() =~= m.dom());
    }
}

/// Marks the tasks that `args` name as open again, in the order of `args`,
/// and hands out each with its number as it then stands. Where the
/// arguments are refused, the list stays as it is.
pub fn run(todo: &mut TodoFile, args: &[String]) -> (r: Result<Vec<(TaskId, Task)>, Error>)
    ensures
        match checked_ids_of(old(todo)@, texts(args@)) {
            Err(e) => r == Err::<Vec<(TaskId, Task)>, Error>(e) && final(todo)@ == old(todo)@
                && final(todo).dirty() == old(todo).dirty(),
            Ok(ids) => r matches Ok(done) && final(todo)@ == uncompleted_all(old(todo)@, ids)
                && final(todo).dirty() && done.len() == ids.len() && forall|i: int|
                0 <= i < ids.len() ==> (#[trigger] done[i]).0 == ids[i] && done[i].1@
                    == uncompleted_all(old(todo)@, ids.take(i + 1))[ids[i].0],
        },
{
    let ids = match checked_ids(todo, args) {
        Err(e) => {
            return Err(e);
        },
        Ok(ids) => ids,
    };
    let ghost start = todo@;
    let mut done: Vec<(TaskId, Task)> = Vec::new();
    let mut i: usize = 0;
    proof {
        lemma_first_missing(start.dom(), ids@);
        assert(ids@.take(0) =~= Seq::<TaskId>::empty());
    }
    while i < ids.len()
        invariant
            i <= ids.len(),
            ids.len() > 0,
            forall|k: int| 0 <= k < ids.len() ==> start.dom().contains(#[trigger] ids@[k].0),
            todo@ == uncompleted_all(start, ids@.take(i as int)),
            i == 0 ==> todo.dirty() == old(todo).dirty(),
            i > 0 ==> todo.dirty(),
            done.len() == i,
            forall|k: int|
                0 <= k < i ==> (#[trigger] done[k]).0 == ids[k] && done[k].1@ == uncompleted_all(
                    start,
                    ids@.take(k + 1),
                )[ids[k].0],
        decreases ids.len() - i,
    {
        let id = ids[i];
        proof {
            lemma_uncompleted_all_dom(start, ids@.take(i as int));
            assert(ids@.take(i + 1).drop_last() =~= ids@.take(i as int));
            assert(start.dom().contains(ids@[i as int].0));
        }
        match todo.uncomplete(id) {
            Some(task) => {
                done.push((id, task.clone()));
            },
            None => {},
        }
        i += 1;
    }
    proof {
        assert(ids@.take(ids.len() as int) =~= ids@);
    }
    Ok(done)
}

} // verus!
