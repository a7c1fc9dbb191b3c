use mama::date::Date;
use mama::task::{Task, TaskParsingError};
use mama::task_priority::TaskPriority;
use mama::text::chars_of;
use mama::words::split_words;

fn date(year: i16, month: u8, day: u8) -> Option<Date> {
    Some(Date { year, month, day })
}

#[test]
fn parse_empty_string() {
    assert_eq!(Task::from_str(""), Err(TaskParsingError::EmptyLine));
}

#[test]
fn parse_whitespace_only() {
    assert_eq!(Task::from_str("\t"), Err(TaskParsingError::EmptyLine));
    assert_eq!(Task::from_str(" "), Err(TaskParsingError::EmptyLine));
}

#[test]
fn description_only() {
    assert_eq!(Task::from_str("one two").unwrap().description, "one two");
}

#[test]
fn task_completion() {
    assert!(Task::from_str("x description").unwrap().completed);
    assert!(!Task::from_str("description").unwrap().completed);
}

#[test]
fn valid_priority_is_parsed() {
    assert_eq!(
        Task::from_str("(A) description").unwrap().priority,
        Some(TaskPriority('A'))
    );
    assert_eq!(
        Task::from_str("x (A) description").unwrap().priority,
        Some(TaskPriority('A'))
    );
    assert_eq!(
        Task::from_str("x (A) description").unwrap().description,
        "description"
    );
}

#[test]
fn invalid_priority_not_parsed() {
    assert_eq!(Task::from_str("(A description").unwrap().priority, None);
}

#[test]
fn parse_creation_date() {
    assert_eq!(
        Task::from_str("2019-11-01 abc").unwrap().creation_date,
        date(2019, 11, 01)
    );
}

#[test]
fn parse_completion_date() {
    let task = Task::from_str("2019-11-02 2019-11-01 abc").unwrap();
    assert_eq!(task.creation_date, date(2019, 11, 01));
    assert_eq!(task.completion_date, date(2019, 11, 02));
}

#[test]
fn initial_x_not_parsed_as_description() {
    assert_eq!(
        Task::from_str("x description").unwrap().description,
        "description"
    );
}

#[test]
fn test_formatting() {
    assert_eq!(
        Task::from_str("description only").unwrap().to_string(),
        "description only"
    );
    assert_eq!(
        Task::from_str("x (C) 2019-11-02 2019-11-01 abc")
            .unwrap()
            .to_string(),
        "x (C) 2019-11-02 2019-11-01 abc"
    );
}

#[test]
fn completed_task_has_completion_date() {
    let mut task = Task::from_str("description").unwrap();
    task.complete();
    assert_eq!(task.completion_date, Some(Date::today()));
}

#[test]
fn uncompleted_task_has_no_completion_date() {
    let mut task = Task::from_str("x 2019-11-01 2019-11-01 description").unwrap();
    task.uncomplete();
    assert_eq!(task.completion_date, None);
}

#[test]
fn completed_task_must_also_have_creation_date() {
    let mut task = Task::from_str("description").unwrap();
    task.complete();
    assert_eq!(task.creation_date, date(1970, 1, 1));
}

#[test]
fn one_date_is_the_creation_date() {
    let task = Task::from_str("2019-11-01 abc").unwrap();
    assert_eq!(task.creation_date, date(2019, 11, 1));
    assert_eq!(task.completion_date, None);
    assert_eq!(task.description, "abc");
}

#[test]
fn malformed_priority_stays_in_the_description() {
    let task = Task::from_str("(A description").unwrap();
    assert_eq!(task.description, "(A description");
    let task = Task::from_str("(a) description").unwrap();
    assert_eq!(task.priority, None);
    assert_eq!(task.description, "(a) description");
}

#[test]
fn fields_are_read_in_their_order_only() {
    let task = Task::from_str("(B) x 2020-01-01 text").unwrap();
    assert!(!task.completed);
    assert_eq!(task.priority, Some(TaskPriority('B')));
    assert_eq!(task.creation_date, None);
    assert_eq!(task.description, "x 2020-01-01 text");

    let task = Task::from_str("2020-01-01 (B) text").unwrap();
    assert_eq!(task.priority, None);
    assert_eq!(task.creation_date, date(2020, 1, 1));
    assert_eq!(task.description, "(B) text");
}

#[test]
fn a_third_date_belongs_to_the_description() {
    let task = Task::from_str("x 2020-03-03 2020-02-02 2020-01-01 rest").unwrap();
    assert_eq!(task.completion_date, date(2020, 3, 3));
    assert_eq!(task.creation_date, date(2020, 2, 2));
    assert_eq!(task.description, "2020-01-01 rest");
}

#[test]
fn a_date_that_the_calendar_lacks_stays_in_the_description() {
    let task = Task::from_str("2019-02-29 abc").unwrap();
    assert_eq!(task.creation_date, None);
    assert_eq!(task.description, "2019-02-29 abc");
    let task = Task::from_str("2020-02-29 abc").unwrap();
    assert_eq!(task.creation_date, date(2020, 2, 29));
    let task = Task::from_str("2019-13-01 abc").unwrap();
    assert_eq!(task.creation_date, None);
}

#[test]
fn runs_of_white_space_collapse_to_single_spaces() {
    let task = Task::from_str("  x \t (A)   2019-11-02\u{a0}2019-11-01  one \u{2003} two\r\n").unwrap();
    assert!(task.completed);
    assert_eq!(task.priority, Some(TaskPriority('A')));
    assert_eq!(task.completion_date, date(2019, 11, 2));
    assert_eq!(task.creation_date, date(2019, 11, 1));
    assert_eq!(task.description, "one two");
}

#[test]
fn a_line_of_leading_fields_alone_has_no_description() {
    assert_eq!(Task::from_str("x"), Err(TaskParsingError::EmptyDescription));
    assert_eq!(Task::from_str("(A)"), Err(TaskParsingError::EmptyDescription));
    assert_eq!(Task::from_str("x (A)"), Err(TaskParsingError::EmptyDescription));
    assert_eq!(Task::from_str("2019-11-01"), Err(TaskParsingError::EmptyDescription));
    assert_eq!(
        Task::from_str("x (A) 2019-11-02 2019-11-01"),
        Err(TaskParsingError::EmptyDescription)
    );
    assert_eq!(Task::from_str(" \u{3000}\n"), Err(TaskParsingError::EmptyLine));
}

#[test]
fn only_a_single_small_x_is_the_completion_mark() {
    assert!(!Task::from_str("X description").unwrap().completed);
    assert!(!Task::from_str("xx description").unwrap().completed);
    assert_eq!(Task::from_str("x x").unwrap().description, "x");
}

#[test]
fn from_words_takes_the_dates_as_given() {
    let words = split_words(&chars_of("x (A) first second rest of it"));
    assert_eq!(Task::dates_start_of(&words), 2);

    let both = Task::from_words(&words, date(2001, 2, 3), date(2000, 1, 2)).unwrap();
    assert!(both.completed);
    assert_eq!(both.priority, Some(TaskPriority('A')));
    assert_eq!(both.completion_date, date(2001, 2, 3));
    assert_eq!(both.creation_date, date(2000, 1, 2));
    assert_eq!(both.description, "rest of it");

    let one = Task::from_words(&words, date(2001, 2, 3), None).unwrap();
    assert_eq!(one.completion_date, None);
    assert_eq!(one.creation_date, date(2001, 2, 3));
    assert_eq!(one.description, "second rest of it");

    let none = Task::from_words(&words, None, date(2000, 1, 2)).unwrap();
    assert_eq!(none.completion_date, None);
    assert_eq!(none.creation_date, None);
    assert_eq!(none.description, "first second rest of it");

    let short = split_words(&chars_of("(A) first"));
    assert_eq!(
        Task::from_words(&short, date(2001, 2, 3), None),
        Err(TaskParsingError::EmptyDescription)
    );
    assert_eq!(
        Task::from_words(&Vec::new(), None, None),
        Err(TaskParsingError::EmptyLine)
    );
}

#[test]
fn lines_are_written_field_by_field() {
    let mut task = Task {
        description: "pay the rent".to_string(),
        ..Task::default()
    };
    assert_eq!(task.to_string(), "pay the rent");
    task.priority = Some(TaskPriority('B'));
    assert_eq!(task.to_string(), "(B) pay the rent");
    task.creation_date = date(2021, 3, 4);
    assert_eq!(task.to_string(), "(B) 2021-03-04 pay the rent");
    task.completed = true;
    task.completion_date = date(2021, 3, 5);
    assert_eq!(task.to_string(), "x (B) 2021-03-05 2021-03-04 pay the rent");
    task.creation_date = None;
    assert_eq!(task.to_string(), "x (B) 2021-03-05 pay the rent");
}

#[test]
fn tasks_read_back_from_their_lines() {
    for line in [
        "call mom",
        "x call mom",
        "(A) call mom",
        "x (Z) call mom again",
        "2020-01-01 buy milk",
        "(C) 2020-01-01 buy milk",
        "x 2020-01-02 2020-01-01 buy milk",
        "x (D) 2020-01-02 2020-01-01 buy milk @shop +home",
        "0001-01-01 old",
        "32767-12-31 far",
    ] {
        let task = Task::from_str(line).unwrap();
        assert_eq!(task.to_string(), line);
        assert_eq!(Task::from_str(&task.to_string()).unwrap(), task);
    }
}

#[test]
fn a_completion_date_alone_reads_back_as_creation_date() {
    let task = Task {
        description: "odd".to_string(),
        completed: true,
        completion_date: date(2020, 5, 6),
        ..Task::default()
    };
    assert_eq!(task.to_string(), "x 2020-05-06 odd");
    let back = Task::from_str(&task.to_string()).unwrap();
    assert_eq!(back.completion_date, None);
    assert_eq!(back.creation_date, date(2020, 5, 6));
}

#[test]
fn completing_on_a_day_sets_both_dates() {
    let mut task = Task::from_str("(A) description").unwrap();
    task.complete_on(Date { year: 2022, month: 7, day: 8 });
    assert!(task.completed);
    assert_eq!(task.completion_date, date(2022, 7, 8));
    assert_eq!(task.creation_date, date(1970, 1, 1));
    assert_eq!(task.priority, Some(TaskPriority('A')));
    assert_eq!(task.description, "description");
    assert_eq!(task.to_string(), "x (A) 2022-07-08 1970-01-01 description");
}

#[test]
fn completing_keeps_a_creation_date() {
    let mut task = Task::from_str("2019-11-01 description").unwrap();
    task.complete_on(Date { year: 2022, month: 7, day: 8 });
    assert_eq!(task.completion_date, date(2022, 7, 8));
    assert_eq!(task.creation_date, date(2019, 11, 1));
}

#[test]
fn uncompleting_keeps_the_creation_date() {
    let mut task = Task::from_str("x (B) 2019-11-02 2019-11-01 description").unwrap();
    task.uncomplete();
    assert!(!task.completed);
    assert_eq!(task.completion_date, None);
    assert_eq!(task.creation_date, date(2019, 11, 1));
    assert_eq!(task.priority, Some(TaskPriority('B')));
    assert_eq!(task.description, "description");
}

#[test]
fn a_clone_equals_its_source() {
    let task = Task::from_str("x (B) 2019-11-02 2019-11-01 description").unwrap();
    assert_eq!(task.clone(), task);
    let empty = Task::default();
    assert_eq!(empty.description, "");
    assert!(!empty.completed);
    assert_eq!(empty.priority, None);
    assert_eq!(empty.completion_date, None);
    assert_eq!(empty.creation_date, None);
}
