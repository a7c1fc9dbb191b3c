//! Listing the tasks: which are shown, and what stands in each column.

use crate::commands::util::texts;
use crate::date::Date;
use crate::decimal::{decimal_text, push_decimal};
use crate::task::{Task, TaskView};
use crate::task_id::TaskId;
use crate::task_priority::TaskPriority;
use crate::text::{
    byte_len,
    byte_length,
    chars_of,
    contains,
    contains_text,
    lowercase,
    push_chars,
    push_spaces,
    same_text,
    spaces,
    string_of,
    to_lowercase,
};
use crate::listing::listing;
use crate::todo_file::{entry_views, TodoFile};
use crate::words::{split_words, word_views, words};
use vstd::prelude::*;

verus! {

/// What the command does, in one line.
pub fn description() -> (r: &'static str)
    ensures
        r@ == "List all tasks"@,
{
    "List all tasks"
}

/// The arguments that the command takes.
pub fn usage() -> (r: &'static str)
    ensures
        r@ == "[-l/--long] [<FILTER>]\n    -l, --long    detailed output\n    FILTER        only show tasks matching words in FILTER"@,
{
    "[-l/--long] [<FILTER>]\n    -l, --long    detailed output\n    FILTER        only show tasks matching words in FILTER"
}

/// Whether `arg` asks for the detailed list.
pub open spec fn is_long_flag(arg: Seq<char>) -> bool {
    arg == "-l"@ || arg == "--long"@
}

/// Whether one of the arguments asks for the detailed list.
pub open spec fn wants_detail(args: Seq<Seq<char>>) -> bool {
    exists|i: int| 0 <= i < args.len() && is_long_flag(#[trigger] args[i])
}

/// The arguments that are filters: all but those that ask for the
/// detailed list, in their order.
pub open spec fn filters_of(args: Seq<Seq<char>>) -> Seq<Seq<char>>
    decreases args.len(),
{
    if args.len() == 0 {
        Seq::empty()
    } else if is_long_flag(args.last()) {
        filters_of(args.drop_last())
    } else {
        filters_of(args.drop_last()).push(args.last())
    }
}

/// Whether one of `filters` stands in `description`; both are in small
/// letters already.
pub open spec fn holds_one_of(description: Seq<char>, filters: Seq<Seq<char>>) -> bool {
    exists|i: int| 0 <= i < filters.len() && contains_text(description, #[trigger] filters[i])
}

/// Each of `filters` in small letters.
pub open spec fn lowered(filters: Seq<Seq<char>>) -> Seq<Seq<char>> {
    filters.map_values(|f: Seq<char>| lowercase(f))
}

/// Whether a task with this description is listed under `filters`: there
/// is no filter, or one of them stands in the description, capitals and
/// small letters taken as the same.
pub open spec fn is_listed(description: Seq<char>, filters: Seq<Seq<char>>) -> bool {
    filters.len() == 0 || holds_one_of(lowercase(description), lowered(filters))
}

/// The entries of `l` that are listed under `filters`, in their order.
pub open spec fn listed(l: Seq<(usize, TaskView)>, filters: Seq<Seq<char>>) -> Seq<
    (usize, TaskView),
>
    decreases l.len(),
{
    if l.len() == 0 {
        Seq::empty()
    } else if is_listed(l.last().1.description, filters) {
        listed(l.drop_last(), filters).push(l.last())
    } else {
        listed(l.drop_last(), filters)
    }
}

/// The width of the column of task numbers: that of the largest count of
/// tasks in decimal, and two at least, since the column is headed `ID`.
pub open spec fn id_column_width_of(count: nat) -> nat {
    if decimal_text(count).len() < 2 {
        2
    } else {
        decimal_text(count).len()
    }
}

/// `text` moved to the right end of a cell of `width` characters.
pub open spec fn right_aligned(text: Seq<char>, width: nat) -> Seq<char> {
    if text.len() < width {
        spaces((width - text.len()) as nat) + text
    } else {
        text
    }
}

/// `text` at the left end of a cell of `width` characters.
pub open spec fn left_aligned(text: Seq<char>, width: nat) -> Seq<char> {
    if text.len() < width {
        text + spaces((width - text.len()) as nat)
    } else {
        text
    }
}

/// `text` in the middle of a cell of `width` characters; an odd space
/// goes to the right.
pub open spec fn centred(text: Seq<char>, width: nat) -> Seq<char> {
    if text.len() < width {
        spaces(((width - text.len()) / 2) as nat) + text + spaces(
            (width - text.len() - (width - text.len()) / 2) as nat,
        )
    } else {
        text
    }
}

/// The line above the list.
pub open spec fn header_text(detailed: bool, id_column_width: nat) -> Seq<char> {
    if detailed {
        "  "@ + right_aligned("ID"@, id_column_width) + " Pri Completed  Created"@
    } else {
        "  "@ + right_aligned("ID"@, id_column_width)
    }
}

/// The cell of a date: ten characters wide, and a space.
pub open spec fn date_cell(date: Option<Date>) -> Seq<char> {
    left_aligned(
        match date {
            Some(d) => d.text(),
            None => Seq::empty(),
        },
        10,
    ) + seq![' ']
}

/// The cell of a priority: the letter in the middle of three characters,
/// and a space.
pub open spec fn priority_cell(priority: Option<TaskPriority>) -> Seq<char> {
    centred(
        match priority {
            Some(p) => seq![p.0],
            None => Seq::empty(),
        },
        3,
    ) + seq![' ']
}

/// The cells of a task between the completion mark and the description:
/// the number at the right of its column, and in the detailed list the
/// priority and the two dates.
pub open spec fn cells(id: TaskId, task: TaskView, detailed: bool, id_column_width: nat) -> Seq<
    char,
> {
    right_aligned(id.text(), id_column_width) + seq![' '] + if detailed {
        priority_cell(task.priority) + date_cell(task.completion_date) + date_cell(
            task.creation_date,
        )
    } else {
        Seq::empty()
    }
}

/// `description` cut to fit `width`: where it takes more bytes than
/// `width`, its first `width - 1` characters and an ellipsis.
pub open spec fn truncated(description: Seq<char>, width: nat) -> Seq<char> {
    if byte_len(description) > width {
        (if description.len() < width - 1 {
            description
        } else {
            description.take(width - 1)
        }).push('\u{2026}')
    } else {
        description
    }
}

/// What a word of a description is, by its first character.
#[derive(Clone, Copy, Debug, PartialEq, Eq, Structural)]
pub enum WordKind {
    /// A context, which starts with `@`.
    Context,
    /// A project, which starts with `+`.
    Project,
    /// Any other word.
    Plain,
}

/// What `word` is, by its first character.
pub open spec fn kind_of(word: Seq<char>) -> WordKind {
    if word.len() > 0 && word[0] == '@' {
        WordKind::Context
    } else if word.len() > 0 && word[0] == '+' {
        WordKind::Project
    } else {
        WordKind::Plain
    }
}

/// Whether `arg` asks for the detailed list.
pub fn is_long(arg: &str) -> (r: bool)
    ensures
        r == is_long_flag(arg@),
{
    same_text(arg, "-l") || same_text(arg, "--long")
}

/// Whether one of the arguments asks for the detailed list.
pub fn detailed_output(args: &[String]) -> (r: bool)
    ensures
        r == wants_detail(texts(args@)),
{
    let mut i: usize = 0;
    while i < args.len()
        invariant
            i <= args.len(),
            forall|k: int| 0 <= k < i ==> !is_long_flag(#[trigger] texts(args@)[k]),
        decreases args.len() - i,
    {
        if is_long(args[i].as_str()) {
            proof {
                assert(is_long_flag(texts(args@)[i as int]));
            }
            return true;
        }
        i += 1;
    }
    false
}

/// The arguments that are filters.
pub fn filters(args: &[String]) -> (r: Vec<String>)
    ensures
        texts(r@) == filters_of(texts(args@)),
{
    let mut r: Vec<String> = Vec::new();
    let mut i: usize = 0;
    proof {
        assert(texts(args@).take(0) =~= Seq::<Seq<char>>::empty());
        assert(texts(r@) =~= Seq::<Seq<char>>::empty());
    }
    while i < args.len()
        invariant
            i <= args.len(),
            texts(r@) == filters_of(texts(args@).take(i as int)),
        decreases args.len() - i,
    {
        proof {
            let taken = texts(args@).take(i + 1);
            assert(taken.drop_last() =~= texts(args@).take(i as int));
            assert(taken.last() == args@[i as int]@);
        }
        if !is_long(args[i].as_str()) {
            let ghost before = r@;
            r.push(args[i].clone());
            proof {
                assert(texts(r@) =~= texts(before).push(args@[i as int]@));
            }
        }
        i += 1;
    }
    proof {
        assert(texts(args@).take(args.len() as int) =~= texts(args@));
    }
    r
}

/// Whether one of `filters` stands in `description`, both in small letters
/// already.
pub fn holds_filter(description: &Vec<char>, filters: &Vec<Vec<char>>) -> (r: bool)
    ensures
        r == holds_one_of(description@, word_views(filters@)),
{
    let mut i: usize = 0;
    while i < filters.len()
        invariant
            i <= filters.len(),
            forall|k: int|
                0 <= k < i ==> !contains_text(description@, #[trigger] word_views(filters@)[k]),
        decreases filters.len() - i,
    {
        if contains(description, &filters[i]) {
            proof {
                assert(contains_text(description@, word_views(filters@)[i as int]));
            }
            return true;
        }
        i += 1;
    }
    false
}

/// The filters in small letters.
fn lower_filters(filters: &Vec<String>) -> (r: Vec<Vec<char>>)
    ensures
        word_views(r@) == lowered(texts(filters@)),
{
    let mut r: Vec<Vec<char>> = Vec::new();
    let mut i: usize = 0;
    while i < filters.len()
        invariant
            i <= filters.len(),
            r.len() == i,
            forall|k: int| 0 <= k < i ==> (#[trigger] r@[k])@ == lowercase(filters@[k]@),
        decreases filters.len() - i,
    {
        let low = to_lowercase(filters[i].as_str());
        r.push(chars_of(low.as_str()));
        i += 1;
    }
    proof {
        assert(word_views(r@) =~= lowered(texts(filters@)));
    }
    r
}

/// Whether a task with this description is listed under `filters`.
pub fn is_shown(description: &str, filters: &Vec<String>) -> (r: bool)
    ensures
        r == is_listed(description@, texts(filters@)),
{
    if filters.len() == 0 {
        return true;
    }
    let low = to_lowercase(description);
    let low_chars = chars_of(low.as_str());
    let low_filters = lower_filters(filters);
    holds_filter(&low_chars, &low_filters)
}

/// The tasks that the list shows under the arguments, with their numbers,
/// by ascending number.
pub fn rows(todo: &TodoFile, args: &[String]) -> (r: Vec<(TaskId, Task)>)
    ensures
        entry_views(r@) == listed(listing(todo@), filters_of(texts(args@))),
{
    let wanted = filters(args);
    let entries = todo.iter();
    let mut r: Vec<(TaskId, Task)> = Vec::new();
    let mut i: usize = 0;
    let ghost l = entry_views(entries@);
    proof {
        assert(l.take(0) =~= Seq::<(usize, TaskView)>::empty());
        assert(entry_views(r@) =~= Seq::<(usize, TaskView)>::empty());
    }
    while i < entries.len()
        invariant
            i <= entries.len(),
            l == entry_views(entries@),
            entry_views(r@) == listed(l.take(i as int), texts(wanted@)),
        decreases entries.len() - i,
    {
        proof {
            let taken = l.take(i + 1);
            assert(taken.drop_last() =~= l.take(i as int));
            assert(taken.last() == (entries@[i as int].0.0, entries@[i as int].1@));
        }
        if is_shown(entries[i].1.description.as_str(), &wanted) {
            let ghost before = r@;
            r.push((entries[i].0, entries[i].1.clone()));
            proof {
                assert(entry_views(r@) =~= entry_views(before).push(l[i as int]));
            }
        }
        i += 1;
    }
    proof {
        assert(l.take(entries.len() as int) =~= l);
    }
    r
}

/// The width of the column of task numbers for a list of `count` tasks.
pub fn id_column_width(count: usize) -> (w: usize)
    ensures
        w == id_column_width_of(count as nat),
        2 <= w,
{
    let mut digits: Vec<char> = Vec::new();
    push_decimal(&mut digits, count as u128);
    proof {
        assert(digits@ =~= decimal_text(count as nat));
    }
    if digits.len() < 2 {
        2
    } else {
        digits.len()
    }
}

/// Appends `text` to `out`, moved to the right end of a cell of `width`
/// characters.
fn push_right_aligned(out: &mut Vec<char>, text: &Vec<char>, width: usize)
    ensures
        final(out)@ == old(out)@ + right_aligned(text@, width as nat),
{
    if text.len() < width {
        push_spaces(out, width - text.len());
    }
    push_chars(out, text);
    proof {
        assert(final(out)@ =~= old(out)@ + right_aligned(text@, width as nat));
    }
}

/// Appends `text` to `out`, at the left end of a cell of `width` characters.
fn push_left_aligned(out: &mut Vec<char>, text: &Vec<char>, width: usize)
    ensures
        final(out)@ == old(out)@ + left_aligned(text@, width as nat),
{
    push_chars(out, text);
    if text.len() < width {
        push_spaces(out, width - text.len());
    }
    proof {
        assert(final(out)@ =~= old(out)@ + left_aligned(text@, width as nat));
    }
}

/// Appends `text` to `out`, in the middle of a cell of `width` characters.
fn push_centred(out: &mut Vec<char>, text: &Vec<char>, width: usize)
    ensures
        final(out)@ == old(out)@ + centred(text@, width as nat),
{
    if text.len() < width {
        let left: usize = (width - text.len()) / 2;
        push_spaces(out, left);
        push_chars(out, text);
        push_spaces(out, width - text.len() - left);
    } else {
        push_chars(out, text);
    }
    proof {
        assert(final(out)@ =~= old(out)@ + centred(text@, width as nat));
    }
}

/// The line above the list.
pub fn header(detailed: bool, id_column_width: usize) -> (s: String)
    ensures
        s@ == header_text(detailed, id_column_width as nat),
{
    let mut out: Vec<char> = chars_of("  ");
    let title = chars_of("ID");
    push_right_aligned(&mut out, &title, id_column_width);
    if detailed {
        let rest = chars_of(" Pri Completed  Created");
        push_chars(&mut out, &rest);
    }
    string_of(&out)
}

/// Appends the cell of `date` to `out`.
fn push_date_cell(out: &mut Vec<char>, date: Option<Date>)
    ensures
        final(out)@ == old(out)@ + date_cell(date),
{
    let mut text: Vec<char> = Vec::new();
    if let Some(d) = date {
        d.push_to(&mut text);
        proof {
            assert(text@ =~= d.text());
        }
    }
    push_left_aligned(out, &text, 10);
    out.push(' ');
    proof {
        assert(final(out)@ =~= old(out)@ + date_cell(date));
    }
}

/// The cell of a date in the detailed list.
pub fn format_date(date: Option<Date>) -> (s: String)
    ensures
        s@ == date_cell(date),
{
    let mut out: Vec<char> = Vec::new();
    push_date_cell(&mut out, date);
    proof {
        assert(out@ =~= date_cell(date));
    }
    string_of(&out)
}

/// Appends the cell of `priority` to `out`.
fn push_priority_cell(out: &mut Vec<char>, priority: Option<TaskPriority>)
    ensures
        final(out)@ == old(out)@ + priority_cell(priority),
{
    let mut text: Vec<char> = Vec::new();
    if let Some(p) = priority {
        text.push(p.0);
        proof {
            assert(text@ =~= seq![p.0]);
        }
    }
    push_centred(out, &text, 3);
    out.push(' ');
    proof {
        assert(final(out)@ =~= old(out)@ + priority_cell(priority));
    }
}

/// The cells of a task between the completion mark and the description.
pub fn row_cells(id: &TaskId, task: &Task, detailed: bool, id_column_width: usize) -> (s: String)
    ensures
        s@ == cells(*id, task@, detailed, id_column_width as nat),
{
    let mut out: Vec<char> = Vec::new();
    let number = chars_of(id.to_string().as_str());
    push_right_aligned(&mut out, &number, id_column_width);
    out.push(' ');
    let ghost head = out@;
    proof {
        assert(head =~= right_aligned(id.text(), id_column_width as nat) + seq![' ']);
    }
    if detailed {
        push_priority_cell(&mut out, task.priority);
        push_date_cell(&mut out, task.completion_date);
        push_date_cell(&mut out, task.creation_date);
        proof {
            assert(out@ =~= head + (priority_cell(task.priority) + date_cell(task.completion_date)
                + date_cell(task.creation_date)));
        }
    } else {
        proof {
            assert(out@ =~= head + Seq::<char>::empty());
        }
    }
    string_of(&out)
}

/// Cuts `description` to fit `available_width`.
pub fn truncate(description: &str, available_width: usize) -> (s: String)
    requires
        byte_len(description@) > available_width ==> available_width > 0,
    ensures
        s@ == truncated(description@, available_width as nat),
{
    let chars = chars_of(description);
    let too_long = match byte_length(&chars) {
        Some(n) => n > available_width,
        None => true,
    };
    if too_long {
        let keep: usize = if chars.len() < available_width - 1 {
            chars.len()
        } else {
            available_width - 1
        };
        let mut out: Vec<char> = Vec::new();
        let mut i: usize = 0;
        while i < keep
            invariant
                i <= keep <= chars.len(),
                out@ == chars@.take(i as int),
            decreases keep - i,
        {
            out.push(chars[i]);
            i += 1;
        }
        out.push('\u{2026}');
        proof {
            assert(chars@.take(chars.len() as int) =~= chars@);
        }
        string_of(&out)
    } else {
        description.to_owned()
    }
}

/// The width that the description of a task may take: in the detailed
/// list one more than its bytes, as far as the machine word holds that,
/// else what the terminal leaves beside the mark and the number.
pub fn description_width(
    description: &str,
    detailed: bool,
    terminal_width: u16,
    id_column_width: usize,
) -> (w: usize)
    requires
        !detailed ==> 3 + id_column_width <= terminal_width,
    ensures
        detailed ==> w == if byte_len(description@) < usize::MAX {
            byte_len(description@) + 1
        } else {
            usize::MAX as nat
        },
        !detailed ==> w == terminal_width - 3 - id_column_width,
{
    if detailed {
        let chars = chars_of(description);
        match byte_length(&chars) {
            Some(n) => if n < usize::MAX {
                n + 1
            } else {
                usize::MAX
            },
            None => usize::MAX,
        }
    } else {
        (terminal_width as usize) - 3 - id_column_width
    }
}

/// What `word` is, by its first character.
pub fn word_kind(word: &str) -> (k: WordKind)
    ensures
        k == kind_of(word@),
{
    let chars = chars_of(word);
    if chars.len() > 0 && chars[0] == '@' {
        WordKind::Context
    } else if chars.len() > 0 && chars[0] == '+' {
        WordKind::Project
    } else {
        WordKind::Plain
    }
}

/// The words of a description cut to fit `available_width`, each with what
/// it is.
pub fn description_words(description: &str, available_width: usize) -> (r: Vec<(String, WordKind)>)
    requires
        byte_len(description@) > available_width ==> available_width > 0,
    ensures
        r@.map_values(|e: (String, WordKind)| e.0@) == words(
            truncated(description@, available_width as nat),
        ),
        forall|i: int| 0 <= i < r.len() ==> (#[trigger] r[i]).1 == kind_of(r[i].0@),
{
    let cut = truncate(description, available_width);
    let parts = split_words(&chars_of(cut.as_str()));
    let mut r: Vec<(String, WordKind)> = Vec::new();
    let mut i: usize = 0;
    while i < parts.len()
        invariant
            i <= parts.len(),
            r.len() == i,
            forall|k: int| 0 <= k < i ==> (#[trigger] r[k]).0@ == parts[k]@ && r[k].1 == kind_of(r[k].0@),
        decreases parts.len() - i,
    {
        let word = string_of(&parts[i]);
        let kind = word_kind(word.as_str());
        r.push((word, kind));
        i += 1;
    }
    proof {
        assert(r@.map_values(|e: (String, WordKind)| e.0@) =~= word_views(parts@));
    }
    r
}

} // verus!
