use mama::date::Date;
use mama::task::Task;
use mama::task_id::TaskId;
use mama::todo_file::TodoFile;

fn task(line: &str) -> Task {
    Task::from_str(line).unwrap()
}

fn numbers(todo: &TodoFile) -> Vec<usize> {
    todo.iter().iter().map(|(id, _)| id.0).collect()
}

fn task_lines(todo: &TodoFile) -> Vec<String> {
    todo.tasks().iter().map(|t| t.to_string()).collect()
}

#[test]
fn a_file_of_two_lines_gives_two_tasks() {
    let todo = TodoFile::from_text("call mom\nx 2020-01-01 2020-01-01 buy milk\n");
    assert_eq!(todo.len(), 2);
    assert!(!todo.unwritten_changes());
    let entries = todo.iter();
    assert_eq!(entries.len(), 2);
    assert_eq!(entries[0].0, TaskId(0));
    assert!(!entries[0].1.completed);
    assert_eq!(entries[0].1.description, "call mom");
    assert_eq!(entries[0].1.completion_date, None);
    assert_eq!(entries[0].1.creation_date, None);
    assert_eq!(entries[1].0, TaskId(1));
    assert!(entries[1].1.completed);
    assert_eq!(entries[1].1.description, "buy milk");
    let day = Some(Date { year: 2020, month: 1, day: 1 });
    assert_eq!(entries[1].1.completion_date, day);
    assert_eq!(entries[1].1.creation_date, day);
}

#[test]
fn lines_without_a_task_are_left_out() {
    let todo = TodoFile::from_text("\n  \nfirst\r\n\nx\n(A)\nsecond");
    assert_eq!(task_lines(&todo), vec!["first", "second"]);
    assert_eq!(numbers(&todo), vec![0, 1]);
    assert_eq!(TodoFile::from_text("").len(), 0);
    assert_eq!(TodoFile::from_text("\n\n").len(), 0);
}

#[test]
fn an_empty_list_has_nothing() {
    let todo = TodoFile::empty();
    assert_eq!(todo.len(), 0);
    assert!(!todo.unwritten_changes());
    assert!(!todo.has_id(&TaskId(0)));
    assert!(todo.iter().is_empty());
    assert_eq!(todo.to_text(), "");
    let todo = TodoFile::default();
    assert_eq!(todo.len(), 0);
    assert!(!todo.unwritten_changes());
}

#[test]
fn adding_takes_the_count_as_number() {
    let mut todo = TodoFile::empty();
    todo.add(task("one"));
    assert!(todo.unwritten_changes());
    todo.add(task("two"));
    todo.add(task("three"));
    assert_eq!(numbers(&todo), vec![0, 1, 2]);
    assert_eq!(task_lines(&todo), vec!["one", "two", "three"]);
    assert!(todo.has_id(&TaskId(2)));
    assert!(!todo.has_id(&TaskId(3)));
    assert!(todo.has_task(TaskId(2)));
    assert!(!todo.has_task(TaskId(3)));
}

#[test]
fn deleting_leaves_a_gap_until_the_numbers_are_refreshed() {
    let mut todo = TodoFile::from_text("a\nb\nc\nd\n");
    let gone = todo.delete(TaskId(1));
    assert_eq!(gone.unwrap().description, "b");
    assert!(todo.unwritten_changes());
    assert_eq!(numbers(&todo), vec![0, 2, 3]);
    assert!(!todo.has_id(&TaskId(1)));
    assert!(todo.has_task(TaskId(1)));
    todo.refresh_ids();
    assert_eq!(numbers(&todo), vec![0, 1, 2]);
    assert_eq!(task_lines(&todo), vec!["a", "c", "d"]);
    todo.add(task("e"));
    assert_eq!(numbers(&todo), vec![0, 1, 2, 3]);
    assert_eq!(task_lines(&todo), vec!["a", "c", "d", "e"]);
}

#[test]
fn adding_into_a_gap_replaces_the_task_with_that_number() {
    let mut todo = TodoFile::from_text("a\nb\nc\n");
    todo.delete(TaskId(0));
    todo.add(task("d"));
    assert_eq!(numbers(&todo), vec![1, 2]);
    assert_eq!(task_lines(&todo), vec!["b", "d"]);
}

#[test]
fn deleting_what_is_not_there_still_counts_as_a_change() {
    let mut todo = TodoFile::from_text("a\n");
    assert!(todo.delete(TaskId(5)).is_none());
    assert!(todo.unwritten_changes());
    assert_eq!(task_lines(&todo), vec!["a"]);
}

#[test]
fn refreshing_keeps_the_change_mark() {
    let mut todo = TodoFile::from_text("a\nb\n");
    todo.refresh_ids();
    assert!(!todo.unwritten_changes());
    assert_eq!(numbers(&todo), vec![0, 1]);
    todo.delete(TaskId(0));
    todo.refresh_ids();
    assert!(todo.unwritten_changes());
    assert_eq!(numbers(&todo), vec![0]);
    assert_eq!(task_lines(&todo), vec!["b"]);
}

#[test]
fn completing_by_number_changes_that_task_only() {
    let mut todo = TodoFile::from_text("a\n2019-11-01 b\n");
    let day = Date { year: 2022, month: 7, day: 8 };
    let done = todo.complete_on(TaskId(1), day).unwrap().clone();
    assert_eq!(done.to_string(), "x 2022-07-08 2019-11-01 b");
    assert!(todo.unwritten_changes());
    assert_eq!(task_lines(&todo), vec!["a", "x 2022-07-08 2019-11-01 b"]);
    let done = todo.complete_on(TaskId(0), day).unwrap().clone();
    assert_eq!(done.to_string(), "x 2022-07-08 1970-01-01 a");
}

#[test]
fn completing_what_is_not_there_changes_nothing() {
    let mut todo = TodoFile::from_text("a\n");
    let day = Date { year: 2022, month: 7, day: 8 };
    assert!(todo.complete_on(TaskId(1), day).is_none());
    assert!(todo.complete(TaskId(1)).is_none());
    assert!(todo.uncomplete(TaskId(1)).is_none());
    assert!(!todo.unwritten_changes());
    assert_eq!(task_lines(&todo), vec!["a"]);
}

#[test]
fn completing_today_uses_the_current_day() {
    let mut todo = TodoFile::from_text("a\n");
    let done = todo.complete(TaskId(0)).unwrap().clone();
    assert!(done.completed);
    assert_eq!(done.completion_date, Some(Date::today()));
    assert_eq!(done.creation_date, Some(Date { year: 1970, month: 1, day: 1 }));
    assert!(todo.unwritten_changes());
}

#[test]
fn uncompleting_by_number_clears_the_completion_date() {
    let mut todo = TodoFile::from_text("x 2020-01-02 2020-01-01 a\nb\n");
    let open = todo.uncomplete(TaskId(0)).unwrap().clone();
    assert_eq!(open.to_string(), "2020-01-01 a");
    assert!(todo.unwritten_changes());
    assert_eq!(task_lines(&todo), vec!["2020-01-01 a", "b"]);
}

#[test]
fn the_text_holds_one_line_for_each_task() {
    let text = "x (A) 2020-01-02 2020-01-01 a\n(B) b\nc\n";
    let mut todo = TodoFile::from_text(text);
    assert_eq!(todo.to_text(), text);
    todo.delete(TaskId(1));
    assert_eq!(todo.to_text(), "x (A) 2020-01-02 2020-01-01 a\nc\n");
    assert!(todo.unwritten_changes());
    todo.mark_saved();
    assert!(!todo.unwritten_changes());
    assert_eq!(todo.to_text(), "x (A) 2020-01-02 2020-01-01 a\nc\n");
    assert_eq!(TodoFile::from_text("  a   b  \n").to_text(), "a b\n");
}
