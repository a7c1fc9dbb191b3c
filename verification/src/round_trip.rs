//! Writing a task and reading it again: which tasks come back as they were.

use crate::date::{Date, date_of, signed_zero_padded};
use crate::decimal::{is_digit, lemma_zero_padded, zero_padded};
use crate::task::{
    date_at,
    date_text,
    dates_start,
    is_completion_mark,
    mark_text,
    priority_at,
    priority_text,
    task_of,
    task_of_words,
    TaskParsingError,
    TaskView,
};
use crate::task_priority::{priority_of, PriorityError, TaskPriority};
use crate::text::is_white_space;
use crate::words::{
    is_word,
    join_words,
    lemma_join_first,
    lemma_join_has_no_line_feed,
    lemma_words_are_words,
    lemma_words_of_join,
    words,
};
use vstd::prelude::*;

verus! {

/// Whether the line of `t` can denote `t` again: the description is made
/// of words with single spaces between them, the priority is a capital
/// letter, the dates read back from their text, a completion date comes
/// with a creation date, and the first word of the description is not
/// taken for a field that `t` lacks.
pub open spec fn reads_back(t: TaskView) -> bool {
    let w = words(t.description);
    &&& w.len() > 0
    &&& t.description == join_words(w)
    &&& (t.priority matches Some(p) ==> p.wf())
    &&& (t.completion_date is Some ==> t.creation_date is Some)
    &&& (t.completion_date matches Some(d) ==> date_of(d.text()) == Some(d))
    &&& (t.creation_date matches Some(d) ==> date_of(d.text()) == Some(d))
    &&& (!t.completed && t.priority is None && t.creation_date is None ==> !is_completion_mark(
        w[0],
    ))
    &&& (t.priority is None && t.creation_date is None ==> priority_of(w[0]) is Err)
    &&& (t.completion_date is None ==> date_of(w[0]) is None)
}

/// The word that stands for an optional field of a line, as a sequence of
/// at most one word.
pub open spec fn optional_word(word: Option<Seq<char>>) -> Seq<Seq<char>> {
    match word {
        Some(w) => seq![w],
        None => Seq::empty(),
    }
}

/// The word of the completion mark, for a completed task.
pub open spec fn mark_word(completed: bool) -> Option<Seq<char>> {
    if completed {
        Some(seq!['x'])
    } else {
        None
    }
}

/// The word of the priority, where there is one.
pub open spec fn priority_word(priority: Option<TaskPriority>) -> Option<Seq<char>> {
    match priority {
        Some(p) => Some(p.token()),
        None => None,
    }
}

/// The word of a date, where there is one.
pub open spec fn date_word(date: Option<Date>) -> Option<Seq<char>> {
    match date {
        Some(d) => Some(d.text()),
        None => None,
    }
}

/// The words of the line that holds `t`: the completion mark, the priority
/// and the dates as far as `t` has them, and the words of the description.
pub open spec fn line_words(t: TaskView) -> Seq<Seq<char>> {
    optional_word(mark_word(t.completed)) + (optional_word(priority_word(t.priority)) + (
    optional_word(date_word(t.completion_date)) + (optional_word(date_word(t.creation_date))
        + words(t.description))))
}

/// The number of words that stand before the description in the line of
/// `t`, counted up to and without the field of the given rank: the mark is
/// of rank 0, the priority of rank 1, the completion date of rank 2, the
/// creation date of rank 3, and the description of rank 4.
pub open spec fn words_before(t: TaskView, rank: int) -> int {
    (if rank > 0 && t.completed {
        1int
    } else {
        0int
    }) + (if rank > 1 && t.priority is Some {
        1int
    } else {
        0int
    }) + (if rank > 2 && t.completion_date is Some {
        1int
    } else {
        0int
    }) + (if rank > 3 && t.creation_date is Some {
        1int
    } else {
        0int
    })
}

/// A date as a line holds it is a word of ten characters or more.
pub proof fn lemma_date_text(d: Date)
    ensures
        is_word(d.text()),
        d.text().len() >= 10,
{
    let year = signed_zero_padded(d.year as int, 4);
    let month = zero_padded(d.month as nat, 2);
    let day = zero_padded(d.day as nat, 2);
    lemma_zero_padded(d.month as nat, 2);
    lemma_zero_padded(d.day as nat, 2);
    if d.year < 0 {
        lemma_zero_padded((-(d.year as int)) as nat, 3);
        let digits = zero_padded((-(d.year as int)) as nat, 3);
        assert forall|i: int| 0 <= i < year.len() implies !is_white_space(#[trigger] year[i]) by {
            if i > 0 {
                assert(year[i] == digits[i - 1]);
                assert(is_digit(digits[i - 1]));
            }
        }
    } else {
        lemma_zero_padded(d.year as nat, 4);
        assert forall|i: int| 0 <= i < year.len() implies !is_white_space(#[trigger] year[i]) by {
            assert(is_digit(year[i]));
        }
    }
    assert(year.len() >= 4);
    let text = d.text();
    assert(text.len() == year.len() + 1 + month.len() + 1 + day.len());
    assert forall|i: int| 0 <= i < text.len() implies !is_white_space(#[trigger] text[i]) by {
        if i < year.len() {
            assert(text[i] == year[i]);
        } else if i == year.len() {
            assert(text[i] == '-');
        } else if i < year.len() + 1 + month.len() {
            assert(text[i] == month[i - year.len() - 1]);
            assert(is_digit(month[i - year.len() - 1]));
        } else if i == year.len() + 1 + month.len() {
            assert(text[i] == '-');
        } else {
            assert(text[i] == day[i - year.len() - month.len() - 2]);
            assert(is_digit(day[i - year.len() - month.len() - 2]));
        }
    }
}

/// An optional word and a space before a line of words join to the line
/// of all the words.
proof fn lemma_join_optional(word: Option<Seq<char>>, rest: Seq<Seq<char>>)
    requires
        rest.len() > 0,
    ensures
        join_words(optional_word(word) + rest) == (match word {
            Some(w) => w + seq![' '],
            None => Seq::empty(),
        }) + join_words(rest),
{
    match word {
        Some(w) => {
            lemma_join_first(w, rest);
            assert(w + seq![' '] + join_words(rest) =~= (w + seq![' ']) + join_words(rest));
        },
        None => {
            assert(optional_word(word) + rest =~= rest);
            assert(Seq::<char>::empty() + join_words(rest) =~= join_words(rest));
        },
    }
}

/// Five texts in a row are the same however they are grouped.
proof fn lemma_five_in_a_row(
    a: Seq<char>,
    b: Seq<char>,
    c: Seq<char>,
    d: Seq<char>,
    e: Seq<char>,
)
    ensures
        a + b + c + d + e == a + (b + (c + (d + e))),
{
    assert(a + b + c + d + e =~= a + (b + (c + (d + e))));
}

/// The line of a task that reads back is its words joined by single spaces.
proof fn lemma_line_is_joined(t: TaskView)
    requires
        reads_back(t),
    ensures
        t.line() == join_words(line_words(t)),
{
    let w = words(t.description);
    let r3 = optional_word(date_word(t.creation_date)) + w;
    let r2 = optional_word(date_word(t.completion_date)) + r3;
    let r1 = optional_word(priority_word(t.priority)) + r2;
    lemma_join_optional(date_word(t.creation_date), w);
    assert(join_words(r3) == date_text(t.creation_date) + t.description);
    lemma_join_optional(date_word(t.completion_date), r3);
    assert(join_words(r2) == date_text(t.completion_date) + join_words(r3));
    lemma_join_optional(priority_word(t.priority), r2);
    assert(join_words(r1) == priority_text(t.priority) + join_words(r2));
    lemma_join_optional(mark_word(t.completed), r1);
    assert(mark_text(t.completed) =~= match mark_word(t.completed) {
        Some(x) => x + seq![' '],
        None => Seq::empty(),
    });
    assert(join_words(line_words(t)) == mark_text(t.completed) + join_words(r1));
    lemma_five_in_a_row(
        mark_text(t.completed),
        priority_text(t.priority),
        date_text(t.completion_date),
        date_text(t.creation_date),
        t.description,
    );
}

/// An optional word before other words comes first where it is there,
/// and the other words follow in their order.
proof fn lemma_optional_first(word: Option<Seq<char>>, rest: Seq<Seq<char>>)
    ensures
        (optional_word(word) + rest).len() == optional_word(word).len() + rest.len(),
        word matches Some(w) ==> optional_word(word).len() == 1 && (optional_word(word) + rest)[0]
            == w,
        word is None ==> optional_word(word).len() == 0,
        forall|i: int|
            0 <= i < rest.len() ==> (optional_word(word) + rest)[optional_word(word).len() + i]
                == #[trigger] rest[i],
{
}

/// Where each field stands among the words of the line of `t`.
#[verifier::spinoff_prover]
#[verifier::rlimit(40)]
proof fn lemma_line_words_shape(t: TaskView)
    ensures
        line_words(t).len() == words_before(t, 4) + words(t.description).len(),
        t.completed ==> line_words(t)[0] == seq!['x'],
        t.priority matches Some(p) ==> line_words(t)[words_before(t, 1)] == p.token(),
        t.completion_date matches Some(d) ==> line_words(t)[words_before(t, 2)] == d.text(),
        t.creation_date matches Some(d) ==> line_words(t)[words_before(t, 3)] == d.text(),
        words(t.description).len() > 0 ==> line_words(t)[words_before(t, 4)] == words(
            t.description,
        )[0],
        line_words(t).skip(words_before(t, 4)) == words(t.description),
{
    let w = words(t.description);
    let r3 = optional_word(date_word(t.creation_date)) + w;
    let r2 = optional_word(date_word(t.completion_date)) + r3;
    let r1 = optional_word(priority_word(t.priority)) + r2;
    let r0 = optional_word(mark_word(t.completed)) + r1;
    let k3 = words_before(t, 4) - words_before(t, 3);
    let k2 = words_before(t, 3) - words_before(t, 2);
    let k1 = words_before(t, 2) - words_before(t, 1);
    let k0 = words_before(t, 1);
    lemma_optional_first(date_word(t.creation_date), w);
    lemma_optional_first(date_word(t.completion_date), r3);
    lemma_optional_first(priority_word(t.priority), r2);
    lemma_optional_first(mark_word(t.completed), r1);
    assert(r0.len() == k0 + k1 + k2 + k3 + w.len());
    assert forall|i: int| 0 <= i < w.len() implies r0[k0 + k1 + k2 + k3 + i] == #[trigger] w[i] by {
        assert(r3[k3 + i] == w[i]);
        assert(r2[k2 + (k3 + i)] == r3[k3 + i]);
        assert(r1[k1 + (k2 + k3 + i)] == r2[k2 + k3 + i]);
        assert(r0[k0 + (k1 + k2 + k3 + i)] == r1[k1 + k2 + k3 + i]);
    }
    assert(r0.skip(words_before(t, 4)) =~= w);
    if t.creation_date is Some {
        assert(r2[k2 + 0] == r3[0]);
        assert(r1[k1 + k2] == r2[k2]);
        assert(r0[k0 + (k1 + k2)] == r1[k1 + k2]);
    }
    if t.completion_date is Some {
        assert(r1[k1 + 0] == r2[0]);
        assert(r0[k0 + k1] == r1[k1]);
    }
    if t.priority is Some {
        assert(r0[k0 + 0] == r1[0]);
    }
    if w.len() > 0 {
        assert(r0[k0 + k1 + k2 + k3 + 0] == w[0]);
    }
}

/// Each word of the line of a task that reads back is a word indeed.
#[verifier::spinoff_prover]
#[verifier::rlimit(40)]
proof fn lemma_line_words_are_words(t: TaskView)
    requires
        reads_back(t),
    ensures
        forall|i: int| 0 <= i < line_words(t).len() ==> is_word(#[trigger] line_words(t)[i]),
{
    let w = words(t.description);
    let all = line_words(t);
    lemma_words_are_words(t.description);
    lemma_line_words_shape(t);
    if t.completion_date is Some {
        lemma_date_text(t.completion_date->Some_0);
    }
    if t.creation_date is Some {
        lemma_date_text(t.creation_date->Some_0);
    }
    assert(is_word(seq!['x']));
    if t.priority is Some {
        assert(is_word(t.priority->Some_0.token()));
    }
    assert forall|i: int| 0 <= i < all.len() implies is_word(#[trigger] all[i]) by {
        if i >= words_before(t, 4) {
            assert(all[i] == all.skip(words_before(t, 4))[i - words_before(t, 4)]);
        }
    }
}

/// Words in which each field of `t` stands at its place, and which end in
/// the words of the description, denote `t` where `t` reads back.
proof fn lemma_words_denote(all: Seq<Seq<char>>, t: TaskView)
    requires
        reads_back(t),
        all.len() == words_before(t, 4) + words(t.description).len(),
        t.completed ==> all[0] == seq!['x'],
        t.priority matches Some(p) ==> all[words_before(t, 1)] == p.token(),
        t.completion_date matches Some(d) ==> all[words_before(t, 2)] == d.text(),
        t.creation_date matches Some(d) ==> all[words_before(t, 3)] == d.text(),
        all[words_before(t, 4)] == words(t.description)[0],
        all.skip(words_before(t, 4)) == words(t.description),
    ensures
        task_of_words(all) == Ok::<TaskView, TaskParsingError>(t),
{
    if t.priority is Some {
        let token = t.priority->Some_0.token();
        assert(token.len() == 3);
        assert(token[0] == '(' && token[1] == t.priority->Some_0.0 && token[2] == ')');
        assert(priority_of(token) == Ok::<TaskPriority, PriorityError>(t.priority->Some_0));
        assert(token != seq!['x']) by {
            assert(seq!['x'].len() == 1);
        }
    }
    if t.completion_date is Some {
        lemma_date_text(t.completion_date->Some_0);
    }
    if t.creation_date is Some {
        lemma_date_text(t.creation_date->Some_0);
    }
    assert(seq!['x'].len() == 1);
    assert(is_completion_mark(all[0]) == t.completed);
    assert(priority_at(all, words_before(t, 1)) == t.priority);
    assert(dates_start(all) == words_before(t, 2));
    let first = date_at(all, dates_start(all));
    let second = date_at(all, dates_start(all) + 1);
    if t.completion_date is Some {
        assert(first == t.completion_date);
        assert(second == t.creation_date);
    } else if t.creation_date is Some {
        assert(first == t.creation_date);
        assert(second is None);
    } else {
        assert(first is None);
    }
}

/// The line of a task that reads back holds no line feed.
pub proof fn lemma_line_has_no_line_feed(t: TaskView)
    requires
        reads_back(t),
    ensures
        forall|i: int| 0 <= i < t.line().len() ==> #[trigger] t.line()[i] != '\n',
{
    lemma_line_is_joined(t);
    lemma_line_words_are_words(t);
    lemma_join_has_no_line_feed(line_words(t));
}

/// A task that reads back is what its line denotes.
pub proof fn lemma_round_trip(t: TaskView)
    ensures
        reads_back(t) ==> task_of(t.line()) == Ok::<TaskView, TaskParsingError>(t),
{
    if reads_back(t) {
        lemma_line_is_joined(t);
        lemma_line_words_are_words(t);
        lemma_words_of_join(line_words(t));
        lemma_line_words_shape(t);
        lemma_words_denote(line_words(t), t);
    }
}

} // verus!
