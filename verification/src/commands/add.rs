//! Adding a task.

use crate::commands::util::texts;
use crate::date::Date;
use crate::error::Error;
use crate::task::{Task, TaskView};
use crate::task_priority::{priority_of, TaskPriority};
use crate::text::{
    chars_of,
    push_chars,
    same_text,
    string_of,
    to_uppercase,
    trim,
    trimmed,
    uppercase,
};
use crate::todo_file::TodoFile;
use crate::words::join_words;
use vstd::prelude::*;

verus! {

/// What the command does, in one line.
pub fn description() -> (r: &'static str)
    ensures
        r@ == "Add a new task to the list"@,
{
    "Add a new task to the list"
}

/// The arguments that the command takes.
pub fn usage() -> (r: &'static str)
    ensures
        r@ == "[-p <PRIORITY>] <description of task to add>\n    -p PRIORITY   set the priority level of the added task"@,
{
    "[-p <PRIORITY>] <description of task to add>\n    -p PRIORITY   set the priority level of the added task"
}

/// Whether `arg` announces a priority.
pub open spec fn is_priority_flag(arg: Seq<char>) -> bool {
    arg == "-p"@ || arg == "--priority"@
}

/// The index of the first argument that announces a priority, if there is
/// one.
pub open spec fn flag_position(args: Seq<Seq<char>>) -> Option<int>
    decreases args.len(),
{
    if args.len() == 0 {
        None
    } else if is_priority_flag(args[0]) {
        Some(0)
    } else {
        match flag_position(args.drop_first()) {
            Some(i) => Some(i + 1),
            None => None,
        }
    }
}

/// Whether the arguments hold a value for the priority wherever they
/// announce one: the first flag is not the last argument.
pub open spec fn flag_has_value(args: Seq<Seq<char>>) -> bool {
    flag_position(args) matches Some(i) ==> i + 1 < args.len()
}

/// The priority whose letter, in capitals already, is `letter`: what
/// `letter` in parentheses denotes.
pub open spec fn priority_of_letter(letter: Seq<char>) -> Option<TaskPriority> {
    match priority_of(seq!['('] + letter + seq![')']) {
        Ok(p) => Some(p),
        Err(_) => None,
    }
}

/// The priority that the arguments ask for: the argument after the first
/// flag, put in capitals, where that is a priority letter.
pub open spec fn priority_in(args: Seq<Seq<char>>) -> Option<TaskPriority> {
    match flag_position(args) {
        Some(i) => priority_of_letter(uppercase(args[i + 1])),
        None => None,
    }
}

/// The arguments without the first flag and its value.
pub open spec fn without_flag(args: Seq<Seq<char>>) -> Seq<Seq<char>> {
    match flag_position(args) {
        Some(i) => args.take(i) + args.skip(i + 2),
        None => args,
    }
}

/// The description that the arguments give: what is left of them without
/// flag and value, joined by spaces and without white space at the ends.
pub open spec fn description_in(args: Seq<Seq<char>>) -> Seq<char> {
    trimmed(join_words(without_flag(args)))
}

/// The task that the arguments describe, created on `today`, with the
/// description and the priority that they give. No description is an
/// error.
pub open spec fn new_task(args: Seq<Seq<char>>, today: Date) -> Result<TaskView, Error> {
    let description = description_in(args);
    if description.len() == 0 {
        Err(Error::InsufficientArguments)
    } else {
        Ok(
            TaskView {
                description,
                completed: false,
                priority: priority_in(args),
                completion_date: None,
                creation_date: Some(today),
            },
        )
    }
}

/// The position of the first flag is within the arguments, at a flag, and
/// no flag comes before it.
proof fn lemma_flag_position(args: Seq<Seq<char>>)
    ensures
        match flag_position(args) {
            Some(i) => 0 <= i < args.len() && is_priority_flag(args[i]) && forall|k: int|
                0 <= k < i ==> !is_priority_flag(#[trigger] args[k]),
            None => forall|k: int| 0 <= k < args.len() ==> !is_priority_flag(#[trigger] args[k]),
        },
    decreases args.len(),
{
    if args.len() > 0 && !is_priority_flag(args[0]) {
        let rest = args.drop_first();
        lemma_flag_position(rest);
        match flag_position(rest) {
            Some(i) => {
                assert(args[i + 1] == rest[i]);
                assert forall|k: int| 0 <= k < i + 1 implies !is_priority_flag(#[trigger] args[k]) by {
                    if k > 0 {
                        assert(args[k] == rest[k - 1]);
                    }
                }
            },
            None => {
                assert forall|k: int| 0 <= k < args.len() implies !is_priority_flag(
                    #[trigger] args[k],
                ) by {
                    if k > 0 {
                        assert(args[k] == rest[k - 1]);
                    }
                }
            },
        }
    }
}

/// An index at a flag with no flag before it is the position of the first
/// flag; without any flag there is no such position.
proof fn lemma_flag_position_is(args: Seq<Seq<char>>, n: int)
    requires
        0 <= n <= args.len(),
        forall|k: int| 0 <= k < n ==> !is_priority_flag(#[trigger] args[k]),
        n < args.len() ==> is_priority_flag(args[n]),
    ensures
        flag_position(args) == if n < args.len() {
            Some(n)
        } else {
            None
        },
{
    lemma_flag_position(args);
}

/// Whether `arg` announces a priority.
pub fn is_flag(arg: &str) -> (r: bool)
    ensures
        r == is_priority_flag(arg@),
{
    same_text(arg, "-p") || same_text(arg, "--priority")
}

/// The index of the first argument that announces a priority; the number
/// of arguments where none does.
pub fn find_flag(args: &Vec<String>) -> (index: usize)
    ensures
        index <= args.len(),
        flag_position(texts(args@)) == if index < args.len() {
            Some(index as int)
        } else {
            None
        },
{
    let mut index: usize = 0;
    while index < args.len() && !is_flag(args[index].as_str())
        invariant
            index <= args.len(),
            forall|k: int| 0 <= k < index ==> !is_priority_flag(#[trigger] texts(args@)[k]),
        decreases args.len() - index,
    {
        index += 1;
    }
    proof {
        lemma_flag_position_is(texts(args@), index as int);
    }
    index
}

/// Whether the arguments hold a value for the priority wherever they
/// announce one.
pub fn has_flag_value(args: &Vec<String>) -> (r: bool)
    ensures
        r == flag_has_value(texts(args@)),
{
    let index = find_flag(args);
    index >= args.len() || index + 1 < args.len()
}

/// The priority whose letter, in capitals already, is `letter`.
pub fn priority_from_letter(letter: &str) -> (r: Option<TaskPriority>)
    ensures
        r == priority_of_letter(letter@),
{
    let mut token: Vec<char> = Vec::new();
    token.push('(');
    let chars = chars_of(letter);
    push_chars(&mut token, &chars);
    token.push(')');
    proof {
        assert(token@ =~= seq!['('] + letter@ + seq![')']);
    }
    match TaskPriority::from_chars(&token) {
        Ok(p) => Some(p),
        Err(_) => None,
    }
}

/// Takes the first priority flag and its value out of the arguments and
/// hands out the priority that the value denotes, if it denotes one.
pub fn parse_priority(args: &mut Vec<String>) -> (r: Option<TaskPriority>)
    requires
        flag_has_value(texts(old(args)@)),
    ensures
        r == priority_in(texts(old(args)@)),
        texts(final(args)@) == without_flag(texts(old(args)@)),
{
    let index = find_flag(args);
    if index < args.len() {
        let upper = to_uppercase(args[index + 1].as_str());
        let priority = priority_from_letter(upper.as_str());
        args.remove(index);
        args.remove(index);
        proof {
            let before = texts(old(args)@);
            assert(texts(args@) =~= before.take(index as int) + before.skip(index + 2));
        }
        priority
    } else {
        None
    }
}

/// The outcome of building a task, as a mathematical value.
pub open spec fn built_view(r: Result<Task, Error>) -> Result<TaskView, Error> {
    match r {
        Ok(t) => Ok(t@),
        Err(e) => Err(e),
    }
}

/// Builds the task that the arguments describe, created on `today`.
pub fn build_task(args: &[String], today: Date) -> (r: Result<Task, Error>)
    requires
        flag_has_value(texts(args@)),
    ensures
        built_view(r) == new_task(texts(args@), today),
{
    let mut owned: Vec<String> = Vec::new();
    let mut i: usize = 0;
    while i < args.len()
        invariant
            i <= args.len(),
            owned.len() == i,
            forall|k: int| 0 <= k < i ==> (#[trigger] owned@[k])@ == args@[k]@,
        decreases args.len() - i,
    {
        owned.push(args[i].clone());
        i += 1;
    }
    proof {
        assert(texts(owned@) =~= texts(args@));
    }
    let priority = parse_priority(&mut owned);
    let mut words: Vec<Vec<char>> = Vec::new();
    let mut k: usize = 0;
    while k < owned.len()
        invariant
            k <= owned.len(),
            words.len() == k,
            forall|j: int| 0 <= j < k ==> (#[trigger] words@[j])@ == owned@[j]@,
        decreases owned.len() - k,
    {
        words.push(chars_of(owned[k].as_str()));
        k += 1;
    }
    proof {
        assert(crate::words::word_views(words@) =~= texts(owned@));
        assert(crate::words::word_views(words@).skip(0) =~= crate::words::word_views(words@));
    }
    let line = crate::words::join_from(&words, 0);
    let description = trim(&line);
    if description.len() == 0 {
        return Err(Error::InsufficientArguments);
    }
    Ok(
        Task {
            description: string_of(&description),
            completed: false,
            priority,
            completion_date: None,
            creation_date: Some(today),
        },
    )
}

/// Whether `after` is the list `before` with the task added that the
/// arguments describe, created on `today`, and `has_priority` says whether
/// that task has a priority.
pub open spec fn added_on(
    before: Map<usize, TaskView>,
    after: Map<usize, TaskView>,
    args: Seq<Seq<char>>,
    today: Date,
    has_priority: bool,
) -> bool {
    new_task(args, today) matches Ok(task) && has_priority == (task.priority is Some) && after
        == before.insert(before.len() as usize, task)
}

/// Adds the task that the arguments describe, created on `today`, and says
/// whether it has a priority. Where the arguments describe no task, the
/// list stays as it is.
pub fn run_on(todo: &mut TodoFile, args: &[String], today: Date) -> (r: Result<bool, Error>)
    requires
        flag_has_value(texts(args@)),
    ensures
        match new_task(texts(args@), today) {
            Err(e) => r == Err::<bool, Error>(e) && final(todo)@ == old(todo)@ && final(todo).dirty() == old(todo).dirty(),
            Ok(task) => r == Ok::<bool, Error>(task.priority is Some) && final(todo)@ == old(todo)@.insert(old(todo)@.len() as usize, task) && final(todo).dirty(),
        },
{
    match build_task(args, today) {
        Err(e) => Err(e),
        Ok(task) => {
            let has_priority = task.priority.is_some();
            todo.add(task);
            Ok(has_priority)
        },
    }
}

/// Adds the task that the arguments describe, created today, and says
/// whether it has a priority. Whether a task is added depends on the
/// arguments alone: where they give no description, the command is refused
/// for want of arguments and the list stays as it is; else the task is
/// added under the count of tasks as its number, with the current day for
/// its creation date.
pub fn run(todo: &mut TodoFile, args: &[String]) -> (r: Result<bool, Error>)
    requires
        flag_has_value(texts(args@)),
    ensures
        description_in(texts(args@)).len() == 0 ==> r == Err::<bool, Error>(
            Error::InsufficientArguments,
        ) && final(todo)@ == old(todo)@ && final(todo).dirty() == old(todo).dirty(),
        description_in(texts(args@)).len() > 0 ==> r == Ok::<bool, Error>(
            priority_in(texts(args@)) is Some,
        ) && final(todo).dirty() && exists|today: Date|
            #[trigger] added_on(
                old(todo)@,
                final(todo)@,
                texts(args@),
                today,
                priority_in(texts(args@)) is Some,
            ),
{
    let today = Date::today();
    let r = run_on(todo, args, today);
    proof {
        if description_in(texts(args@)).len() > 0 {
            assert(added_on(
                old(todo)@,
                final(todo)@,
                texts(args@),
                today,
                priority_in(texts(args@)) is Some,
            ));
        }
    }
    r
}

} // verus!
