//! One task, and the grammar of the line that holds it.

use crate::date::{Date, date_of};
use crate::task_priority::{priority_of, TaskPriority};
use crate::text::{chars_of, is_white_space, push_chars, string_of};
use crate::words::{join_from, join_words, lemma_words_of_blank, split_words, word_views, words};
use vstd::prelude::*;

verus! {

/// One task of the list.
#[derive(Debug, PartialEq)]
pub struct Task {
    pub description: String,
    pub completed: bool,
    pub priority: Option<TaskPriority>,
    pub completion_date: Option<Date>,
    pub creation_date: Option<Date>,
}

/// A task as a mathematical value.
pub struct TaskView {
    pub description: Seq<char>,
    pub completed: bool,
    pub priority: Option<TaskPriority>,
    pub completion_date: Option<Date>,
    pub creation_date: Option<Date>,
}

impl View for Task {
    type V = TaskView;

    open spec fn view(&self) -> TaskView {
        TaskView {
            description: self.description@,
            completed: self.completed,
            priority: self.priority,
            completion_date: self.completion_date,
            creation_date: self.creation_date,
        }
    }
}

/// Why a line holds no task.
#[derive(Clone, Copy, Debug, PartialEq, Eq, Structural)]
pub enum TaskParsingError {
    /// The line holds no word at all.
    EmptyLine,
    /// The line holds a completion mark, a priority or dates, and no word
    /// after them.
    EmptyDescription,
}

/// Whether `word` is the completion mark, a single `x`.
pub open spec fn is_completion_mark(word: Seq<char>) -> bool {
    word == seq!['x']
}

/// The priority that the word at `i` denotes, if there is such a word and
/// it denotes one.
pub open spec fn priority_at(ws: Seq<Seq<char>>, i: int) -> Option<TaskPriority> {
    if 0 <= i < ws.len() {
        match priority_of(ws[i]) {
            Ok(p) => Some(p),
            Err(_) => None,
        }
    } else {
        None
    }
}

/// The date that the word at `i` denotes, if there is such a word and it
/// denotes one.
pub open spec fn date_at(ws: Seq<Seq<char>>, i: int) -> Option<Date> {
    if 0 <= i < ws.len() {
        date_of(ws[i])
    } else {
        None
    }
}

/// The number of words that the completion mark and the priority take up at
/// the start of a line: the index of the first word that may be a date.
pub open spec fn dates_start(ws: Seq<Seq<char>>) -> int {
    let after_mark: int = if ws.len() > 0 && is_completion_mark(ws[0]) {
        1
    } else {
        0
    };
    if priority_at(ws, after_mark) is Some {
        after_mark + 1
    } else {
        after_mark
    }
}

/// The task that the words of a line denote, where `first` is what the word
/// at `dates_start(ws)` denotes as a date and `second` what the word after
/// it does. A single date is the creation date; of two, the first is the
/// completion date and the second the creation date.
pub open spec fn task_of_parts(
    ws: Seq<Seq<char>>,
    first: Option<Date>,
    second: Option<Date>,
) -> Result<TaskView, TaskParsingError> {
    if ws.len() == 0 {
        Err(TaskParsingError::EmptyLine)
    } else {
        let completed = is_completion_mark(ws[0]);
        let after_mark: int = if completed {
            1
        } else {
            0
        };
        let second = if first is Some {
            second
        } else {
            None
        };
        let rest: int = dates_start(ws) + (if first is Some {
            1int
        } else {
            0int
        }) + (if second is Some {
            1int
        } else {
            0int
        });
        if rest >= ws.len() {
            Err(TaskParsingError::EmptyDescription)
        } else {
            Ok(
                TaskView {
                    description: join_words(ws.skip(rest)),
                    completed,
                    priority: priority_at(ws, after_mark),
                    completion_date: if second is Some {
                        first
                    } else {
                        None
                    },
                    creation_date: if second is Some {
                        second
                    } else {
                        first
                    },
                },
            )
        }
    }
}

/// The task that the words of a line denote.
pub open spec fn task_of_words(ws: Seq<Seq<char>>) -> Result<TaskView, TaskParsingError> {
    let first = date_at(ws, dates_start(ws));
    task_of_parts(ws, first, date_at(ws, dates_start(ws) + 1))
}

/// The task that a line denotes: an optional completion mark `x`, an
/// optional priority, up to two dates, and the description, all separated
/// by white space.
pub open spec fn task_of(line: Seq<char>) -> Result<TaskView, TaskParsingError> {
    task_of_words(words(line))
}

/// The outcome of reading a line, as a mathematical value.
pub open spec fn parsed_view(r: Result<Task, TaskParsingError>) -> Result<
    TaskView,
    TaskParsingError,
> {
    match r {
        Ok(t) => Ok(t@),
        Err(e) => Err(e),
    }
}

/// The completion mark and a space, for a completed task.
pub open spec fn mark_text(completed: bool) -> Seq<char> {
    if completed {
        seq!['x', ' ']
    } else {
        Seq::empty()
    }
}

/// The priority in parentheses and a space, where there is one.
pub open spec fn priority_text(priority: Option<TaskPriority>) -> Seq<char> {
    match priority {
        Some(p) => p.token() + seq![' '],
        None => Seq::empty(),
    }
}

/// The date and a space, where there is one.
pub open spec fn date_text(date: Option<Date>) -> Seq<char> {
    match date {
        Some(d) => d.text() + seq![' '],
        None => Seq::empty(),
    }
}

impl TaskView {
    /// The line that holds the task: `x` if it is completed, the priority
    /// in parentheses, the completion date, the creation date, each followed
    /// by one space where present, and then the description.
    pub open spec fn line(self) -> Seq<char> {
        mark_text(self.completed) + priority_text(self.priority) + date_text(self.completion_date)
            + date_text(self.creation_date) + self.description
    }

    /// The task marked as completed on `today`. A task without creation
    /// date gets the first day of 1970 for one, since a line cannot hold a
    /// completion date alone.
    pub open spec fn completed_on(self, today: Date) -> TaskView {
        TaskView {
            completed: true,
            completion_date: Some(today),
            creation_date: if self.creation_date is None {
                Some(Date::epoch())
            } else {
                self.creation_date
            },
            ..self
        }
    }

    /// The task marked as open again: the completion date goes, the creation
    /// date stays.
    pub open spec fn uncompleted(self) -> TaskView {
        TaskView { completed: false, completion_date: None, ..self }
    }
}

/// A line denotes no task for want of words exactly if it holds white
/// space only, the empty line among them.
pub proof fn lemma_blank_line(line: Seq<char>)
    ensures
        task_of(line) == Err::<TaskView, TaskParsingError>(TaskParsingError::EmptyLine)
            <==> forall|i: int| 0 <= i < line.len() ==> is_white_space(#[trigger] line[i]),
{
    lemma_words_of_blank(line);
}

impl Default for Task {
    /// A task that is open, with an empty description and nothing else.
    fn default() -> (t: Task)
        ensures
            t@ == (TaskView {
                description: Seq::empty(),
                completed: false,
                priority: None,
                completion_date: None,
                creation_date: None,
            }),
    {
        Task {
            description: String::new(),
            completed: false,
            priority: None,
            completion_date: None,
            creation_date: None,
        }
    }
}

impl Clone for Task {
    fn clone(&self) -> (t: Task)
        ensures
            t == *self,
    {
        Task {
            description: self.description.clone(),
            completed: self.completed,
            priority: self.priority,
            completion_date: self.completion_date,
            creation_date: self.creation_date,
        }
    }
}

impl Task {
    /// The index of the first word that may be a date: one past the
    /// completion mark and the priority, as far as the line has them.
    pub fn dates_start_of(ws: &Vec<Vec<char>>) -> (k: usize)
        ensures
            k == dates_start(word_views(ws@)),
            k <= 2,
    {
        let after_mark: usize = if ws.len() > 0 && Task::is_mark(&ws[0]) {
            1
        } else {
            0
        };
        if after_mark < ws.len() && TaskPriority::from_chars(&ws[after_mark]).is_ok() {
            after_mark + 1
        } else {
            after_mark
        }
    }

    /// Whether `word` is the completion mark.
    pub fn is_mark(word: &Vec<char>) -> (r: bool)
        ensures
            r == is_completion_mark(word@),
    {
        let r = word.len() == 1 && word[0] == 'x';
        proof {
            if r {
                assert(word@ =~= seq!['x']);
            }
        }
        r
    }

    /// Builds the task from the words of a line and from what the two words
    /// at `dates_start_of(ws)` denote as dates.
    pub fn from_words(ws: &Vec<Vec<char>>, first: Option<Date>, second: Option<Date>) -> (r: Result<
        Task,
        TaskParsingError,
    >)
        ensures
            parsed_view(r) == task_of_parts(word_views(ws@), first, second),
    {
        if ws.len() == 0 {
            return Err(TaskParsingError::EmptyLine);
        }
        let completed = Task::is_mark(&ws[0]);
        let after_mark: usize = if completed {
            1
        } else {
            0
        };
        let priority = if after_mark < ws.len() {
            match TaskPriority::from_chars(&ws[after_mark]) {
                Ok(p) => Some(p),
                Err(_) => None,
            }
        } else {
            None
        };
        let mut rest: usize = after_mark;
        if priority.is_some() {
            rest += 1;
        }
        let (completion_date, creation_date) = match first {
            Some(_) => {
                rest += 1;
                match second {
                    Some(_) => {
                        rest += 1;
                        (first, second)
                    },
                    None => (None, first),
                }
            },
            None => (None, None),
        };
        if rest >= ws.len() {
            return Err(TaskParsingError::EmptyDescription);
        }
        let description = string_of(&join_from(ws, rest));
        Ok(Task { description, completed, priority, completion_date, creation_date })
    }

    /// Reads a task from a line of text.
    pub fn from_str(s: &str) -> (r: Result<Task, TaskParsingError>)
        ensures
            parsed_view(r) == task_of(s@),
    {
        let chars = chars_of(s);
        Task::from_chars(&chars)
    }

    /// Reads a task from the characters of a line.
    pub fn from_chars(chars: &Vec<char>) -> (r: Result<Task, TaskParsingError>)
        ensures
            parsed_view(r) == task_of(chars@),
    {
        let ws = split_words(chars);
        let k = Task::dates_start_of(&ws);
        let first = if k < ws.len() {
            Date::from_chars(&ws[k])
        } else {
            None
        };
        let second = if first.is_some() && k + 1 < ws.len() {
            Date::from_chars(&ws[k + 1])
        } else {
            None
        };
        Task::from_words(&ws, first, second)
    }

    /// Appends the completion mark to `out`, if the task is completed.
    fn push_mark(&self, out: &mut Vec<char>)
        ensures
            final(out)@ == old(out)@ + mark_text(self.completed),
    {
        if self.completed {
            out.push('x');
            out.push(' ');
        }
        proof {
            assert(final(out)@ =~= old(out)@ + mark_text(self.completed));
        }
    }

    /// Appends the priority in parentheses to `out`, if the task has one.
    fn push_priority(&self, out: &mut Vec<char>)
        ensures
            final(out)@ == old(out)@ + priority_text(self.priority),
    {
        if let Some(p) = self.priority {
            out.push('(');
            out.push(p.0);
            out.push(')');
            out.push(' ');
        }
        proof {
            assert(final(out)@ =~= old(out)@ + priority_text(self.priority));
        }
    }

    /// Appends `date` and a space to `out`, if there is a date.
    fn push_date(date: Option<Date>, out: &mut Vec<char>)
        ensures
            final(out)@ == old(out)@ + date_text(date),
    {
        if let Some(d) = date {
            d.push_to(out);
            out.push(' ');
        }
        proof {
            assert(final(out)@ =~= old(out)@ + date_text(date));
        }
    }

    /// The line that holds the task.
    pub fn to_string(&self) -> (s: String)
        ensures
            s@ == self@.line(),
    {
        let mut out: Vec<char> = Vec::new();
        self.push_mark(&mut out);
        proof {
            assert(out@ =~= mark_text(self.completed));
        }
        self.push_priority(&mut out);
        Task::push_date(self.completion_date, &mut out);
        Task::push_date(self.creation_date, &mut out);
        let description = chars_of(self.description.as_str());
        push_chars(&mut out, &description);
        string_of(&out)
    }

    /// Marks the task as completed on `today`.
    pub fn complete_on(&mut self, today: Date)
        ensures
            final(self)@ == old(self)@.completed_on(today),
    {
        self.completed = true;
        self.completion_date = Some(today);
        if self.creation_date.is_none() {
            self.creation_date = Some(Date::unix_epoch());
        }
    }

    /// Marks the task as completed today.
    pub fn complete(&mut self)
        ensures
            final(self)@.completion_date is Some,
            final(self)@ == old(self)@.completed_on(final(self)@.completion_date->Some_0),
    {
        self.complete_on(Date::today());
    }

    /// Marks the task as open again.
    pub fn uncomplete(&mut self)
        ensures
            final(self)@ == old(self)@.uncompleted(),
    {
        self.completed = false;
        self.completion_date = None;
    }
}

} // verus!
