//! The list of tasks in memory.

use crate::date::Date;
use crate::listing::{
    lemma_listing, lemma_lists_is_listing, listing, lists, numbered, renumbered, tasks_in_order,
};
use crate::round_trip::{lemma_line_has_no_line_feed, lemma_round_trip, reads_back};
use crate::task::{task_of, Task, TaskView};
use crate::task_id::TaskId;
use crate::text::{chars_of, string_of};
use std::collections::BTreeMap;
use vstd::prelude::*;
use vstd::std_specs::cmp::OrdSpec;
use vstd::std_specs::iter::IteratorSpec;

verus! {

/// The tasks of a todo.txt file, each under its number, and whether they
/// differ from what the file holds.
pub struct TodoFile {
    tasks: BTreeMap<usize, Task>,
    changed: bool,
}

impl View for TodoFile {
    type V = Map<usize, TaskView>;

    closed spec fn view(&self) -> Map<usize, TaskView> {
        self.tasks@.map_values(|t: Task| t@)
    }
}

/// What the standard library's ordered map calls increasing is, for
/// numbers, a strict rise from each to the next.
proof fn lemma_increasing_numbers(keys: Seq<usize>)
    requires
        vstd::std_specs::btree::increasing_seq(keys),
    ensures
        forall|i: int, j: int| 0 <= i < j < keys.len() ==> keys[i] < keys[j],
{
    vstd::std_specs::btree::axiom_increasing_seq_meaning(keys);
    assert forall|i: int, j: int| 0 <= i < j < keys.len() implies keys[i] < keys[j] by {
        assert(keys[i].cmp_spec(&keys[j]) is Less);
    }
}

/// The number of characters of `s` before its first line feed.
pub open spec fn line_len(s: Seq<char>) -> nat
    decreases s.len(),
{
    if s.len() == 0 || s[0] == '\n' {
        0
    } else {
        1 + line_len(s.drop_first())
    }
}

/// `line_len(s)` stays within `s` and stops at a line feed or at the end.
pub proof fn lemma_line_len(s: Seq<char>)
    ensures
        line_len(s) <= s.len(),
        line_len(s) < s.len() ==> s[line_len(s) as int] == '\n',
    decreases s.len(),
{
    if s.len() == 0 || s[0] == '\n' {
    } else {
        lemma_line_len(s.drop_first());
    }
}

/// A prefix of `n` characters without line feed, which ends `s` or is
/// followed by a line feed, is the first line of `s`.
proof fn lemma_line_len_is(s: Seq<char>, n: int)
    requires
        0 <= n <= s.len(),
        forall|i: int| 0 <= i < n ==> #[trigger] s[i] != '\n',
        n < s.len() ==> s[n] == '\n',
    ensures
        line_len(s) == n,
    decreases n,
{
    if n > 0 {
        let t = s.drop_first();
        assert forall|i: int| 0 <= i < n - 1 implies #[trigger] t[i] != '\n' by {
            assert(t[i] == s[i + 1]);
        }
        assert(s[0] != '\n');
        lemma_line_len_is(t, n - 1);
    }
}

/// What follows the first line of `s` and its line feed.
pub open spec fn after_first_line(s: Seq<char>) -> Seq<char> {
    if line_len(s) < s.len() {
        s.skip(line_len(s) as int + 1)
    } else {
        Seq::empty()
    }
}

/// The tasks that the lines of `text` denote, in order. Lines end at a line
/// feed; a line that denotes no task is left out.
pub open spec fn tasks_of_text(text: Seq<char>) -> Seq<TaskView>
    decreases text.len(),
{
    if text.len() == 0 {
        Seq::empty()
    } else {
        proof {
            lemma_line_len(text);
        }
        match task_of(text.take(line_len(text) as int)) {
            Ok(t) => seq![t] + tasks_of_text(after_first_line(text)),
            Err(_) => tasks_of_text(after_first_line(text)),
        }
    }
}

/// The text that holds `tasks`: the line of each, in order, each ended by a
/// line feed.
pub open spec fn text_of(tasks: Seq<TaskView>) -> Seq<char>
    decreases tasks.len(),
{
    if tasks.len() == 0 {
        Seq::empty()
    } else {
        text_of(tasks.drop_last()) + tasks.last().line() + seq!['\n']
    }
}

/// A text that starts with a line without line feed, ended by a line feed,
/// denotes what that line denotes and then what the rest does.
proof fn lemma_tasks_of_first_line(line: Seq<char>, rest: Seq<char>)
    requires
        forall|i: int| 0 <= i < line.len() ==> #[trigger] line[i] != '\n',
    ensures
        tasks_of_text(line + seq!['\n'] + rest) == match task_of(line) {
            Ok(t) => seq![t] + tasks_of_text(rest),
            Err(_) => tasks_of_text(rest),
        },
{
    let full = line + seq!['\n'] + rest;
    assert forall|i: int| 0 <= i < line.len() implies #[trigger] full[i] != '\n' by {
        assert(full[i] == line[i]);
    }
    assert(full[line.len() as int] == '\n');
    lemma_line_len_is(full, line.len() as int);
    assert(full.take(line.len() as int) =~= line);
    assert(after_first_line(full) =~= rest);
}

/// The text of a task followed by more tasks starts with the line of the
/// first and a line feed.
proof fn lemma_text_of_first(first: TaskView, rest: Seq<TaskView>)
    ensures
        text_of(seq![first] + rest) == first.line() + seq!['\n'] + text_of(rest),
    decreases rest.len(),
{
    let all = seq![first] + rest;
    if rest.len() == 0 {
        assert(all.drop_last() =~= Seq::<TaskView>::empty());
        assert(text_of(all.drop_last()) =~= Seq::<char>::empty());
        assert(text_of(all) =~= first.line() + seq!['\n'] + text_of(rest));
    } else {
        assert(all.drop_last() =~= seq![first] + rest.drop_last());
        assert(all.last() == rest.last());
        lemma_text_of_first(first, rest.drop_last());
        assert(text_of(all) =~= first.line() + seq!['\n'] + text_of(rest));
    }
}

/// Whether each of `tasks` reads back from its line.
pub open spec fn all_read_back(tasks: Seq<TaskView>) -> bool {
    forall|i: int| 0 <= i < tasks.len() ==> reads_back(#[trigger] tasks[i])
}

/// Tasks that read back are what the text that holds them denotes: a list
/// that is written and read again holds the same tasks in the same order.
pub proof fn lemma_text_round_trip(tasks: Seq<TaskView>)
    ensures
        all_read_back(tasks) ==> tasks_of_text(text_of(tasks)) == tasks,
    decreases tasks.len(),
{
    if all_read_back(tasks) {
        if tasks.len() == 0 {
            assert(tasks_of_text(text_of(tasks)) =~= tasks);
        } else {
            let first = tasks[0];
            let rest = tasks.drop_first();
            assert(tasks =~= seq![first] + rest);
            assert forall|i: int| 0 <= i < rest.len() implies reads_back(#[trigger] rest[i]) by {
                assert(rest[i] == tasks[i + 1]);
            }
            lemma_text_round_trip(rest);
            lemma_text_of_first(first, rest);
            lemma_line_has_no_line_feed(first);
            lemma_tasks_of_first_line(first.line(), text_of(rest));
            lemma_round_trip(first);
        }
    }
}

/// The views of a vector of tasks.
pub open spec fn task_views(v: Seq<Task>) -> Seq<TaskView> {
    v.map_values(|t: Task| t@)
}

/// The views of a vector of numbered tasks.
pub open spec fn entry_views(v: Seq<(TaskId, Task)>) -> Seq<(usize, TaskView)> {
    v.map_values(|e: (TaskId, Task)| (e.0.0, e.1@))
}

impl Default for TodoFile {
    /// A list without tasks and without changes.
    fn default() -> (r: TodoFile)
        ensures
            r@ == Map::<usize, TaskView>::empty(),
            !r.dirty(),
    {
        TodoFile::empty()
    }
}

impl TodoFile {
    /// Whether the list holds changes that were not written yet.
    pub closed spec fn dirty(&self) -> bool {
        self.changed
    }

    /// A list in memory holds finitely many tasks, and their count fits
    /// the machine word.
    pub proof fn lemma_bounded(&self)
        ensures
            self@.dom().finite(),
            self@.len() <= usize::MAX,
    {
        assert(self@.dom() =~= self.tasks@.dom());
        assert(self.tasks.len() == self.tasks@.len());
    }

    /// A list without tasks and without changes.
    pub fn empty() -> (r: TodoFile)
        ensures
            r@ == Map::<usize, TaskView>::empty(),
            !r.dirty(),
    {
        let r = TodoFile { tasks: BTreeMap::new(), changed: false };
        proof {
            assert(r@ =~= Map::<usize, TaskView>::empty());
        }
        r
    }

    /// Reads the list from the text of a todo.txt file. Each line that
    /// denotes a task gives one; the tasks are numbered from zero in the
    /// order of their lines.
    pub fn from_text(text: &str) -> (r: TodoFile)
        ensures
            r@ == numbered(tasks_of_text(text@)),
            !r.dirty(),
    {
        let chars = chars_of(text);
        let mut tasks: BTreeMap<usize, Task> = BTreeMap::new();
        let mut count: usize = 0;
        let mut i: usize = 0;
        let ghost found = Seq::<TaskView>::empty();
        proof {
            assert(chars@.skip(0) =~= chars@);
            assert(found + tasks_of_text(chars@) =~= tasks_of_text(chars@));
        }
        while i < chars.len()
            invariant
                i <= chars.len(),
                count == found.len(),
                count <= i,
                tasks_of_text(chars@) == found + tasks_of_text(chars@.skip(i as int)),
                tasks@.dom() =~= Set::new(|k: usize| k < count),
                forall|k: usize| k < count ==> (#[trigger] tasks@[k])@ == found[k as int],
            decreases chars.len() - i,
        {
            let ghost rest = chars@.skip(i as int);
            let mut line: Vec<char> = Vec::new();
            let mut j: usize = i;
            while j < chars.len() && chars[j] != '\n'
                invariant
                    i <= j <= chars.len(),
                    line@ == chars@.subrange(i as int, j as int),
                    forall|k: int| i <= k < j ==> #[trigger] chars@[k] != '\n',
                decreases chars.len() - j,
            {
                line.push(chars[j]);
                j += 1;
            }
            proof {
                assert forall|k: int| 0 <= k < j - i implies #[trigger] rest[k] != '\n' by {
                    assert(rest[k] == chars@[i + k]);
                }
                lemma_line_len_is(rest, j - i);
                assert(rest.take(j - i) =~= line@);
            }
            let next: usize = if j < chars.len() {
                j + 1
            } else {
                j
            };
            proof {
                assert(after_first_line(rest) =~= chars@.skip(next as int));
            }
            match Task::from_chars(&line) {
                Ok(task) => {
                    proof {
                        assert(tasks_of_text(rest) == seq![task@] + tasks_of_text(chars@.skip(next as int)));
                        assert(found + (seq![task@] + tasks_of_text(chars@.skip(next as int)))
                            =~= found.push(task@) + tasks_of_text(chars@.skip(next as int)));
                        found = found.push(task@);
                    }
                    tasks.insert(count, task);
                    count += 1;
                },
                Err(_) => {
                    proof {
                        assert(tasks_of_text(rest) == tasks_of_text(chars@.skip(next as int)));
                    }
                },
            }
            i = next;
        }
        let r = TodoFile { tasks, changed: false };
        proof {
            assert(chars@.skip(i as int) =~= Seq::<char>::empty());
            assert(tasks_of_text(chars@) =~= found);
            assert(r@ =~= numbered(found));
        }
        r
    }

    /// Whether the list holds changes that were not written yet.
    pub fn unwritten_changes(&self) -> (r: bool)
        ensures
            r == self.dirty(),
    {
        self.changed
    }

    /// Whether a task has the number `id`.
    pub fn has_id(&self, id: &TaskId) -> (r: bool)
        ensures
            r == self@.contains_key(id.0),
    {
        self.tasks.contains_key(&id.0)
    }

    /// The number of tasks.
    pub fn len(&self) -> (n: usize)
        ensures
            n == self@.len(),
    {
        proof {
            assert(self@.dom() =~= self.tasks@.dom());
        }
        self.tasks.len()
    }

    /// Whether `index` is below the number of tasks.
    pub fn has_task(&self, index: TaskId) -> (r: bool)
        ensures
            r == (index.0 < self@.len()),
    {
        index < self.len()
    }

    /// Numbers the tasks anew from zero, without gaps, in their order. The
    /// numbers are then exactly those below the count of tasks.
    pub fn refresh_ids(&mut self)
        ensures
            final(self)@ == renumbered(old(self)@),
            final(self).dirty() == old(self).dirty(),
    {
        let entries = self.iter();
        let mut fresh: BTreeMap<usize, Task> = BTreeMap::new();
        let mut i: usize = 0;
        let ghost order = tasks_in_order(self@);
        proof {
            assert(order =~= task_views(entries@.map_values(|e: (TaskId, Task)| e.1)));
        }
        while i < entries.len()
            invariant
                i <= entries.len(),
                order.len() == entries.len(),
                forall|k: int| 0 <= k < entries.len() ==> order[k] == (#[trigger] entries[k]).1@,
                fresh@.dom() =~= Set::new(|k: usize| k < i),
                forall|k: usize| k < i ==> (#[trigger] fresh@[k])@ == order[k as int],
            decreases entries.len() - i,
        {
            fresh.insert(i, entries[i].1.clone());
            i += 1;
        }
        self.tasks = fresh;
        proof {
            assert(final(self)@ =~= numbered(order));
        }
    }

    /// The text of the todo.txt file that holds the list: the line of each
    /// task, by ascending number, each ended by a line feed.
    pub fn to_text(&self) -> (s: String)
        ensures
            s@ == text_of(tasks_in_order(self@)),
    {
        let tasks = self.tasks();
        let mut out: Vec<char> = Vec::new();
        let mut i: usize = 0;
        let ghost order = tasks_in_order(self@);
        proof {
            assert(order.take(0) =~= Seq::<TaskView>::empty());
        }
        while i < tasks.len()
            invariant
                i <= tasks.len(),
                order == task_views(tasks@),
                out@ == text_of(order.take(i as int)),
            decreases tasks.len() - i,
        {
            let line = tasks[i].to_string();
            let line_chars = chars_of(line.as_str());
            crate::text::push_chars(&mut out, &line_chars);
            out.push('\n');
            proof {
                let taken = order.take(i + 1);
                assert(taken.drop_last() =~= order.take(i as int));
                assert(taken.last() == tasks[i as int]@);
            }
            i += 1;
        }
        proof {
            assert(order.take(tasks.len() as int) =~= order);
        }
        string_of(&out)
    }

    /// Notes that the list was written as it stands.
    pub fn mark_saved(&mut self)
        ensures
            final(self)@ == old(self)@,
            !final(self).dirty(),
    {
        self.changed = false;
    }

    /// The tasks with their numbers, by ascending number.
    pub fn iter(&self) -> (r: Vec<(TaskId, Task)>)
        ensures
            entry_views(r@) == listing(self@),
            r.len() == self@.len(),
    {
        let mut out: Vec<(TaskId, Task)> = Vec::new();
        let ghost m = self.tasks@;
        let ghost all = vstd::std_specs::btree::spec_btree_map_iter(&self.tasks).remaining();
        for kv in it: self.tasks.iter()
            invariant
                m == self.tasks@,
                it.seq() == all,
                out.len() == it.index(),
                forall|i: int| 0 <= i < out.len() ==> (#[trigger] out[i]).0.0 == *it.seq()[i].0 && out[i].1 == *it.seq()[i].1,
                vstd::std_specs::btree::increasing_seq(it.seq().map_values(|kv: (&usize, &Task)| *kv.0)),
                forall|i: int| 0 <= i < it.seq().len() ==> m.contains_key(*(#[trigger] it.seq()[i]).0) && m[*it.seq()[i].0] == *it.seq()[i].1,
                forall|k: usize| #[trigger] m.contains_key(k) ==> it.seq().contains((&k, &m[k])),
        {
            let (k, v) = kv;
            out.push((TaskId(*k), v.clone()));
        }
        proof {
            let l = entry_views(out@);
            let keys = all.map_values(|kv: (&usize, &Task)| *kv.0);
            assert(out.len() == all.len());
            lemma_increasing_numbers(keys);
            assert forall|i: int, j: int| 0 <= i < j < l.len() implies l[i].0 < l[j].0 by {
                assert(keys[i] == l[i].0);
                assert(keys[j] == l[j].0);
            }
            assert forall|i: int| 0 <= i < l.len() implies self@.contains_pair(#[trigger] l[i].0, l[i].1) by {
                assert(m.contains_key(*all[i].0));
            }
            assert forall|k: usize| self@.contains_key(k) implies exists|i: int| 0 <= i < l.len() && #[trigger] l[i].0 == k by {
                assert(m.contains_key(k));
                let i = all.index_of((&k, &m[k]));
                assert(l[i].0 == k);
            }
            assert(lists(l, self@));
            lemma_lists_is_listing(l, self@);
            assert(self@.dom() =~= m.dom());
            lemma_listing(self@);
        }
        out
    }

    /// The tasks by ascending number.
    pub fn tasks(&self) -> (r: Vec<Task>)
        ensures
            task_views(r@) == tasks_in_order(self@),
    {
        let entries = self.iter();
        let mut out: Vec<Task> = Vec::new();
        let mut i: usize = 0;
        while i < entries.len()
            invariant
                i <= entries.len(),
                out.len() == i,
                forall|k: int| 0 <= k < i ==> (#[trigger] out[k])@ == entries[k].1@,
            decreases entries.len() - i,
        {
            out.push(entries[i].1.clone());
            i += 1;
        }
        proof {
            assert(task_views(out@) =~= entry_views(entries@).map_values(|e: (usize, TaskView)| e.1));
        }
        out
    }

    /// Adds `task` under the number that equals the count of tasks. Where
    /// the numbers have gaps, a task that has that number already is
    /// replaced: refresh the numbers after deleting and before adding.
    pub fn add(&mut self, task: Task)
        ensures
            final(self)@ == old(self)@.insert(old(self)@.len() as usize, task@),
            final(self).dirty(),
    {
        let id = self.tasks.len();
        proof {
            assert(old(self)@.dom() =~= old(self).tasks@.dom());
            assert(id == old(self)@.len());
        }
        self.tasks.insert(id, task);
        self.changed = true;
        proof {
            assert(final(self)@ =~= old(self)@.insert(id, task@));
        }
    }

    /// Marks the task with the number `index` as completed on `today` and
    /// hands it out as it then stands. Without such a task nothing changes.
    pub fn complete_on(&mut self, index: TaskId, today: Date) -> (r: Option<&Task>)
        ensures
            match r {
                Some(t) => old(self)@.contains_key(index.0) && t@ == old(self)@[index.0].completed_on(
                    today,
                ) && final(self)@ == old(self)@.insert(index.0, t@) && final(self).dirty(),
                None => !old(self)@.contains_key(index.0) && final(self)@ == old(self)@
                    && final(self).dirty() == old(self).dirty(),
            },
    {
        match self.tasks.remove(&index.0) {
            Some(task) => {
                let mut task = task;
                task.complete_on(today);
                self.tasks.insert(index.0, task);
                self.changed = true;
                proof {
                    assert(final(self)@ =~= old(self)@.insert(index.0, task@));
                }
                self.tasks.get(&index.0)
            },
            None => {
                proof {
                    assert(final(self)@ =~= old(self)@);
                }
                None
            },
        }
    }

    /// Marks the task with the number `index` as completed today and hands
    /// it out as it then stands. Without such a task nothing changes.
    pub fn complete(&mut self, index: TaskId) -> (r: Option<&Task>)
        ensures
            match r {
                Some(t) => old(self)@.contains_key(index.0) && t@.completion_date is Some && t@
                    == old(self)@[index.0].completed_on(t@.completion_date->Some_0) && final(self)@
                    == old(self)@.insert(index.0, t@) && final(self).dirty(),
                None => !old(self)@.contains_key(index.0) && final(self)@ == old(self)@
                    && final(self).dirty() == old(self).dirty(),
            },
    {
        self.complete_on(index, Date::today())
    }

    /// Marks the task with the number `index` as open again and hands it
    /// out as it then stands. Without such a task nothing changes.
    pub fn uncomplete(&mut self, index: TaskId) -> (r: Option<&Task>)
        ensures
            match r {
                Some(t) => old(self)@.contains_key(index.0) && t@ == old(self)@[index.0].uncompleted()
                    && final(self)@ == old(self)@.insert(index.0, t@) && final(self).dirty(),
                None => !old(self)@.contains_key(index.0) && final(self)@ == old(self)@
                    && final(self).dirty() == old(self).dirty(),
            },
    {
        match self.tasks.remove(&index.0) {
            Some(task) => {
                let mut task = task;
                task.uncomplete();
                self.tasks.insert(index.0, task);
                self.changed = true;
                proof {
                    assert(final(self)@ =~= old(self)@.insert(index.0, task@));
                }
                self.tasks.get(&index.0)
            },
            None => {
                proof {
                    assert(final(self)@ =~= old(self)@);
                }
                None
            },
        }
    }

    /// Removes the task with the number `index` and hands it out. The list
    /// counts as changed afterwards, also where no task had that number.
    pub fn delete(&mut self, index: TaskId) -> (r: Option<Task>)
        ensures
            final(self)@ == old(self)@.remove(index.0),
            final(self).dirty(),
            match r {
                Some(t) => old(self)@.contains_key(index.0) && old(self)@[index.0] == t@,
                None => !old(self)@.contains_key(index.0),
            },
    {
        self.changed = true;
        let r = self.tasks.remove(&index.0);
        proof {
            assert(final(self)@ =~= old(self)@.remove(index.0));
        }
        r
    }
}

} // verus!
