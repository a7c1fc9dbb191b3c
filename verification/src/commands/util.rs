//! Task numbers from the arguments of a command.

use crate::error::Error;
use crate::task_id::{task_id_of, TaskId};
use crate::todo_file::TodoFile;
use vstd::prelude::*;

verus! {

/// The task numbers that `args` denote: all of them, or the error of the
/// first argument that denotes none.
pub open spec fn task_ids_of(args: Seq<Seq<char>>) -> Result<Seq<TaskId>, Error>
    decreases args.len(),
{
    if args.len() == 0 {
        Ok(Seq::empty())
    } else {
        match task_ids_of(args.drop_last()) {
            Err(e) => Err(e),
            Ok(ids) => match task_id_of(args.last()) {
                Err(e) => Err(e),
                Ok(id) => Ok(ids.push(id)),
            },
        }
    }
}

/// The views of a vector of strings.
pub open spec fn texts(args: Seq<String>) -> Seq<Seq<char>> {
    args.map_values(|s: String| s@)
}

/// The outcome of reading task numbers, as a mathematical value.
pub open spec fn ids_view(r: Result<Vec<TaskId>, Error>) -> Result<Seq<TaskId>, Error> {
    match r {
        Ok(ids) => Ok(ids@),
        Err(e) => Err(e),
    }
}

/// Reads each argument as a task number.
pub fn args_to_task_ids(args: &[String]) -> (r: Result<Vec<TaskId>, Error>)
    ensures
        ids_view(r) == task_ids_of(texts(args@)),
{
    let mut ids: Vec<TaskId> = Vec::new();
    let mut i: usize = 0;
    proof {
        assert(texts(args@).take(0) =~= Seq::<Seq<char>>::empty());
    }
    while i < args.len()
        invariant
            i <= args.len(),
            task_ids_of(texts(args@).take(i as int)) == Ok::<Seq<TaskId>, Error>(ids@),
        decreases args.len() - i,
    {
        proof {
            let taken = texts(args@).take(i + 1);
            assert(taken.drop_last() =~= texts(args@).take(i as int));
            assert(taken.last() == args@[i as int]@);
        }
        match TaskId::from_str(args[i].as_str()) {
            Ok(id) => {
                ids.push(id);
            },
            Err(e) => {
                proof {
                    lemma_task_ids_error(texts(args@), i + 1);
                }
                return Err(e);
            },
        }
        i += 1;
    }
    proof {
        assert(texts(args@).take(args.len() as int) =~= texts(args@));
    }
    Ok(ids)
}

/// Where a prefix of the arguments fails, the arguments fail in the same way.
proof fn lemma_task_ids_error(args: Seq<Seq<char>>, n: int)
    requires
        0 <= n <= args.len(),
        task_ids_of(args.take(n)) is Err,
    ensures
        task_ids_of(args) == task_ids_of(args.take(n)),
    decreases args.len() - n,
{
    if n == args.len() {
        assert(args.take(n) =~= args);
    } else {
        assert(args.drop_last().take(n) =~= args.take(n));
        lemma_task_ids_error(args.drop_last(), n);
    }
}

/// The first of `ids` that no task of `m` has, if there is one.
pub open spec fn first_missing(m: Set<usize>, ids: Seq<TaskId>) -> Option<TaskId>
    decreases ids.len(),
{
    if ids.len() == 0 {
        None
    } else if !m.contains(ids[0].0) {
        Some(ids[0])
    } else {
        first_missing(m, ids.drop_first())
    }
}

/// No number is missing exactly where the list has each of them.
pub proof fn lemma_first_missing(m: Set<usize>, ids: Seq<TaskId>)
    ensures
        first_missing(m, ids) is None <==> forall|i: int|
            0 <= i < ids.len() ==> m.contains(#[trigger] ids[i].0),
        first_missing(m, ids) matches Some(id) ==> !m.contains(id.0) && ids.contains(id),
    decreases ids.len(),
{
    if ids.len() > 0 {
        let rest = ids.drop_first();
        lemma_first_missing(m, rest);
        if m.contains(ids[0].0) {
            if first_missing(m, rest) is None {
                assert forall|i: int| 0 <= i < ids.len() implies m.contains(#[trigger] ids[i].0) by {
                    if i > 0 {
                        assert(ids[i] == rest[i - 1]);
                    }
                }
            } else {
                let id = first_missing(m, rest)->Some_0;
                let j = choose|j: int| 0 <= j < rest.len() && rest[j] == id;
                assert(ids[j + 1] == id);
                if forall|i: int| 0 <= i < ids.len() ==> m.contains(#[trigger] ids[i].0) {
                    assert(m.contains(ids[j + 1].0));
                }
            }
        } else {
            assert(ids[0] == ids[0]);
        }
    }
}

/// Checks that the list has a task for each of `ids`, and names the first
/// for which it has none.
pub fn assert_ids_exist(todo: &TodoFile, ids: &[TaskId]) -> (r: Result<(), Error>)
    ensures
        match first_missing(todo@.dom(), ids@) {
            Some(id) => r == Err::<(), Error>(Error::IdNotFound(id)),
            None => r is Ok,
        },
{
    let mut i: usize = 0;
    proof {
        assert(ids@.skip(0) =~= ids@);
    }
    while i < ids.len()
        invariant
            i <= ids.len(),
            first_missing(todo@.dom(), ids@) == first_missing(todo@.dom(), ids@.skip(i as int)),
        decreases ids.len() - i,
    {
        proof {
            assert(ids@.skip(i as int).drop_first() =~= ids@.skip(i + 1));
        }
        if !todo.has_id(&ids[i]) {
            return Err(Error::IdNotFound(ids[i]));
        }
        i += 1;
    }
    Ok(())
}

/// The task numbers that the arguments of a command name, where the
/// command is to go ahead: there is at least one argument, each denotes a
/// task number, and the list has a task for each. Otherwise the reason why
/// the command is refused, the first that applies.
pub open spec fn checked_ids_of(m: Map<usize, crate::task::TaskView>, args: Seq<Seq<char>>) -> Result<
    Seq<TaskId>,
    Error,
> {
    if args.len() == 0 {
        Err(Error::InsufficientArguments)
    } else {
        match task_ids_of(args) {
            Err(e) => Err(e),
            Ok(ids) => match first_missing(m.dom(), ids) {
                Some(id) => Err(Error::IdNotFound(id)),
                None => Ok(ids),
            },
        }
    }
}

/// Reads the arguments of a command as task numbers and checks that the
/// list has a task for each, before anything is changed.
pub fn checked_ids(todo: &TodoFile, args: &[String]) -> (r: Result<Vec<TaskId>, Error>)
    ensures
        ids_view(r) == checked_ids_of(todo@, texts(args@)),
{
    if args.len() == 0 {
        return Err(Error::InsufficientArguments);
    }
    match args_to_task_ids(args) {
        Err(e) => Err(e),
        Ok(ids) => match assert_ids_exist(todo, ids.as_slice()) {
            Err(e) => Err(e),
            Ok(()) => Ok(ids),
        },
    }
}

} // verus!
