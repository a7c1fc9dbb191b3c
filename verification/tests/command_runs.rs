use mama::commands::{add, complete, list, remove, uncomplete, util};
use mama::commands::list::WordKind;
use mama::date::Date;
use mama::error::Error;
use mama::task::Task;
use mama::task_id::TaskId;
use mama::task_priority::TaskPriority;
use mama::todo_file::TodoFile;

fn args(words: &[&str]) -> Vec<String> {
    words.iter().map(|w| w.to_string()).collect()
}

fn lines(todo: &TodoFile) -> Vec<String> {
    todo.tasks().iter().map(|t| t.to_string()).collect()
}

fn day() -> Date {
    Date { year: 2022, month: 7, day: 8 }
}

#[test]
fn a_command_without_arguments_is_refused() {
    let mut todo = TodoFile::from_text("a\n");
    assert_eq!(complete::run_on(&mut todo, &args(&[]), day()), Err(Error::InsufficientArguments));
    assert_eq!(complete::run(&mut todo, &args(&[])), Err(Error::InsufficientArguments));
    assert_eq!(uncomplete::run(&mut todo, &args(&[])), Err(Error::InsufficientArguments));
    assert_eq!(remove::run(&mut todo, &args(&[])), Err(Error::InsufficientArguments));
    assert_eq!(util::checked_ids(&todo, &args(&[])), Err(Error::InsufficientArguments));
    assert!(!todo.unwritten_changes());
}

#[test]
fn a_batch_with_a_missing_number_changes_nothing() {
    let mut todo = TodoFile::from_text("a\nb\n");
    assert_eq!(
        complete::run_on(&mut todo, &args(&["1", "3", "2"]), day()),
        Err(Error::IdNotFound(TaskId(2)))
    );
    assert_eq!(
        uncomplete::run(&mut todo, &args(&["2", "9"])),
        Err(Error::IdNotFound(TaskId(8)))
    );
    assert_eq!(remove::run(&mut todo, &args(&["1", "0"])), Err(Error::ZeroId));
    assert_eq!(remove::run(&mut todo, &args(&["x", "9"])), Err(Error::NonnumericId));
    assert_eq!(lines(&todo), vec!["a", "b"]);
    assert!(!todo.unwritten_changes());
    assert_eq!(
        util::checked_ids(&todo, &args(&["2", "1"])),
        Ok(vec![TaskId(1), TaskId(0)])
    );
}

#[test]
fn completing_a_batch_hands_out_each_task() {
    let mut todo = TodoFile::from_text("a\n2020-01-01 b\nc\n");
    let done = complete::run_on(&mut todo, &args(&["3", "2"]), day()).unwrap();
    assert_eq!(done.len(), 2);
    assert_eq!(done[0].0, TaskId(2));
    assert_eq!(done[0].1.to_string(), "x 2022-07-08 1970-01-01 c");
    assert_eq!(done[1].0, TaskId(1));
    assert_eq!(done[1].1.to_string(), "x 2022-07-08 2020-01-01 b");
    assert_eq!(
        lines(&todo),
        vec!["a", "x 2022-07-08 2020-01-01 b", "x 2022-07-08 1970-01-01 c"]
    );
    assert!(todo.unwritten_changes());
}

#[test]
fn completing_today_marks_the_tasks() {
    let mut todo = TodoFile::from_text("a\nb\n");
    let done = complete::run(&mut todo, &args(&["1"])).unwrap();
    assert_eq!(done.len(), 1);
    assert!(done[0].1.completed);
    assert!(todo.iter()[0].1.completed);
    assert!(!todo.iter()[1].1.completed);
    assert!(todo.unwritten_changes());
}

#[test]
fn uncompleting_a_batch_hands_out_each_task() {
    let mut todo = TodoFile::from_text("x 2020-01-02 2020-01-01 a\nx b\n");
    let open = uncomplete::run(&mut todo, &args(&["1", "2", "1"])).unwrap();
    assert_eq!(open.len(), 3);
    assert_eq!(open[0].1.to_string(), "2020-01-01 a");
    assert_eq!(open[1].1.to_string(), "b");
    assert_eq!(open[2].1.to_string(), "2020-01-01 a");
    assert_eq!(lines(&todo), vec!["2020-01-01 a", "b"]);
    assert!(todo.unwritten_changes());
}

#[test]
fn removing_a_batch_refreshes_the_numbers() {
    let mut todo = TodoFile::from_text("a\nb\nc\nd\n");
    let gone = remove::run(&mut todo, &args(&["3", "1", "3"])).unwrap();
    assert_eq!(gone.len(), 2);
    assert_eq!(gone[0].0, TaskId(2));
    assert_eq!(gone[0].1.description, "c");
    assert_eq!(gone[1].0, TaskId(0));
    assert_eq!(gone[1].1.description, "a");
    let left: Vec<(usize, String)> =
        todo.iter().iter().map(|(id, t)| (id.0, t.to_string())).collect();
    assert_eq!(left, vec![(0, "b".to_string()), (1, "d".to_string())]);
    assert!(todo.unwritten_changes());
}

#[test]
fn the_priority_flag_and_its_value_leave_the_arguments() {
    let mut words = args(&["buy", "-p", "a", "milk"]);
    assert_eq!(add::parse_priority(&mut words), Some(TaskPriority('A')));
    assert_eq!(words, args(&["buy", "milk"]));

    let mut words = args(&["--priority", "B", "-p", "C"]);
    assert_eq!(add::parse_priority(&mut words), Some(TaskPriority('B')));
    assert_eq!(words, args(&["-p", "C"]));

    let mut words = args(&["buy", "milk"]);
    assert_eq!(add::parse_priority(&mut words), None);
    assert_eq!(words, args(&["buy", "milk"]));

    let mut words = args(&["-p", "ab", "x"]);
    assert_eq!(add::parse_priority(&mut words), None);
    assert_eq!(words, args(&["x"]));

    let mut words = args(&["-p", "1", "x"]);
    assert_eq!(add::parse_priority(&mut words), None);
    let mut words = args(&["-p", "ß", "x"]);
    assert_eq!(add::parse_priority(&mut words), None);
    let mut words = args(&["-p", "\u{17f}", "x"]);
    assert_eq!(add::parse_priority(&mut words), Some(TaskPriority('S')));
}

#[test]
fn a_letter_in_capitals_gives_its_priority() {
    assert_eq!(add::priority_from_letter("A"), Some(TaskPriority('A')));
    assert_eq!(add::priority_from_letter("a"), None);
    assert_eq!(add::priority_from_letter(""), None);
    assert_eq!(add::priority_from_letter("AB"), None);
}

#[test]
fn adding_builds_the_task_from_the_arguments() {
    let task = add::build_task(&args(&[" buy", "milk ", "-p", "c", " "]), day()).unwrap();
    assert_eq!(
        task,
        Task {
            description: "buy milk".to_string(),
            completed: false,
            priority: Some(TaskPriority('C')),
            completion_date: None,
            creation_date: Some(day()),
        }
    );
    let task = add::build_task(&args(&["two  spaces", "kept"]), day()).unwrap();
    assert_eq!(task.description, "two  spaces kept");
    assert_eq!(task.priority, None);
    assert_eq!(add::build_task(&args(&[]), day()), Err(Error::InsufficientArguments));
    assert_eq!(add::build_task(&args(&[" ", "\t"]), day()), Err(Error::InsufficientArguments));
    assert_eq!(add::build_task(&args(&["-p", "A"]), day()), Err(Error::InsufficientArguments));
}

#[test]
fn adding_puts_the_task_last() {
    let mut todo = TodoFile::from_text("a\n");
    assert_eq!(add::run_on(&mut todo, &args(&["b", "-p", "z"]), day()), Ok(true));
    assert_eq!(add::run_on(&mut todo, &args(&["c"]), day()), Ok(false));
    assert_eq!(lines(&todo), vec!["a", "(Z) 2022-07-08 b", "2022-07-08 c"]);
    assert!(todo.unwritten_changes());

    let mut todo = TodoFile::from_text("a\n");
    assert_eq!(add::run_on(&mut todo, &args(&[" "]), day()), Err(Error::InsufficientArguments));
    assert_eq!(add::run(&mut todo, &args(&[])), Err(Error::InsufficientArguments));
    assert!(!todo.unwritten_changes());
    assert_eq!(add::run(&mut todo, &args(&["today"])), Ok(false));
    assert_eq!(todo.len(), 2);
    assert_eq!(todo.iter()[1].1.creation_date, Some(Date::today()));
}

#[test]
fn the_long_flag_asks_for_detail() {
    assert!(list::detailed_output(&args(&["-l"])));
    assert!(list::detailed_output(&args(&["milk", "--long"])));
    assert!(!list::detailed_output(&args(&["milk", "-L", "long"])));
    assert!(!list::detailed_output(&args(&[])));
    assert_eq!(list::filters(&args(&["-l", "milk", "--long", "Mom"])), args(&["milk", "Mom"]));
    assert!(list::filters(&args(&["-l"])).is_empty());
}

#[test]
fn filters_select_by_words_in_any_case() {
    let todo = TodoFile::from_text("call Mom\nbuy MILK @shop\nx pay rent\n");
    let shown: Vec<(usize, String)> = list::rows(&todo, &args(&["-l", "mo", "milk"]))
        .iter()
        .map(|(id, t)| (id.0, t.description.clone()))
        .collect();
    assert_eq!(shown, vec![(0, "call Mom".to_string()), (1, "buy MILK @shop".to_string())]);
    assert_eq!(list::rows(&todo, &args(&[])).len(), 3);
    assert_eq!(list::rows(&todo, &args(&["--long"])).len(), 3);
    assert_eq!(list::rows(&todo, &args(&["RENT"])).len(), 1);
    assert_eq!(list::rows(&todo, &args(&["nothing"])).len(), 0);
    assert_eq!(list::rows(&todo, &args(&[""])).len(), 3);
    assert!(list::is_shown("Straße", &args(&["STRASSE", "straße"])));
    assert!(!list::is_shown("Strasse", &args(&["ß"])));
}

#[test]
fn a_filter_is_looked_for_as_a_whole() {
    let text: Vec<char> = "buy milk".chars().collect();
    let found = |needles: &[&str]| {
        let needles: Vec<Vec<char>> = needles.iter().map(|n| n.chars().collect()).collect();
        list::holds_filter(&text, &needles)
    };
    assert!(found(&["milk"]));
    assert!(found(&["x", "y m"]));
    assert!(found(&[""]));
    assert!(found(&["buy milk"]));
    assert!(!found(&["buy milk "]));
    assert!(!found(&["mlk", "bum"]));
    assert!(!found(&[]));
}

#[test]
fn the_number_column_is_two_wide_at_least() {
    assert_eq!(list::id_column_width(0), 2);
    assert_eq!(list::id_column_width(9), 2);
    assert_eq!(list::id_column_width(99), 2);
    assert_eq!(list::id_column_width(100), 3);
    assert_eq!(list::id_column_width(12345), 5);
}

#[test]
fn the_header_names_the_columns() {
    assert_eq!(list::header(false, 2), "  ID");
    assert_eq!(list::header(false, 4), "    ID");
    assert_eq!(list::header(true, 2), "  ID Pri Completed  Created");
    assert_eq!(list::header(true, 3), "   ID Pri Completed  Created");
    assert_eq!(list::header(false, 1), "  ID");
}

#[test]
fn a_date_cell_is_ten_wide() {
    assert_eq!(list::format_date(None), "           ");
    assert_eq!(list::format_date(Some(Date { year: 2020, month: 1, day: 2 })), "2020-01-02 ");
    assert_eq!(list::format_date(Some(Date { year: 12020, month: 1, day: 2 })), "12020-01-02 ");
}

#[test]
fn the_cells_of_a_row_line_up() {
    let task = Task::from_str("x (B) 2020-01-03 2020-01-02 pay").unwrap();
    assert_eq!(list::row_cells(&TaskId(4), &task, false, 2), " 5 ");
    assert_eq!(list::row_cells(&TaskId(4), &task, false, 1), "5 ");
    assert_eq!(list::row_cells(&TaskId(122), &task, false, 3), "123 ");
    assert_eq!(list::row_cells(&TaskId(4), &task, true, 2), " 5  B  2020-01-03 2020-01-02 ");
    let plain = Task::from_str("pay").unwrap();
    assert_eq!(
        list::row_cells(&TaskId(0), &plain, true, 3),
        format!("{:>3} {:^3} {:10} {:10} ", 1, "", "", "")
    );
}

#[test]
fn a_long_description_is_cut() {
    assert_eq!(list::truncate("buy milk", 8), "buy milk");
    assert_eq!(list::truncate("buy milk", 7), "buy mi…");
    assert_eq!(list::truncate("buy milk", 1), "…");
    assert_eq!(list::truncate("", 0), "");
    assert_eq!(list::truncate("äöü", 6), "äöü");
    assert_eq!(list::truncate("äöü", 5), "äöü…");
    assert_eq!(list::truncate("äöü", 3), "äö…");
}

#[test]
fn the_description_gets_what_the_terminal_leaves() {
    assert_eq!(list::description_width("buy milk", true, 80, 2), 9);
    assert_eq!(list::description_width("äöü", true, 80, 2), 7);
    assert_eq!(list::description_width("buy milk", false, 80, 2), 75);
    assert_eq!(list::description_width("buy milk", false, 5, 2), 0);
}

#[test]
fn words_are_told_apart_by_their_first_character() {
    assert_eq!(list::word_kind("@home"), WordKind::Context);
    assert_eq!(list::word_kind("+garden"), WordKind::Project);
    assert_eq!(list::word_kind("plain"), WordKind::Plain);
    assert_eq!(list::word_kind("a@b"), WordKind::Plain);
    assert_eq!(list::word_kind(""), WordKind::Plain);
    let words = list::description_words("mow  the lawn @home +garden", 80);
    assert_eq!(
        words,
        vec![
            ("mow".to_string(), WordKind::Plain),
            ("the".to_string(), WordKind::Plain),
            ("lawn".to_string(), WordKind::Plain),
            ("@home".to_string(), WordKind::Context),
            ("+garden".to_string(), WordKind::Project),
        ]
    );
    let cut = list::description_words("mow the lawn", 6);
    assert_eq!(
        cut,
        vec![("mow".to_string(), WordKind::Plain), ("t…".to_string(), WordKind::Plain)]
    );
}

#[test]
fn a_flag_needs_a_value_after_it() {
    assert!(add::is_flag("-p"));
    assert!(add::is_flag("--priority"));
    assert!(!add::is_flag("-P"));
    assert!(!add::is_flag("p"));
    assert_eq!(add::find_flag(&args(&["a", "-p", "b", "--priority"])), 1);
    assert_eq!(add::find_flag(&args(&["a", "b"])), 2);
    assert_eq!(add::find_flag(&args(&[])), 0);
    assert!(add::has_flag_value(&args(&["a", "-p", "b"])));
    assert!(add::has_flag_value(&args(&["a", "b"])));
    assert!(add::has_flag_value(&args(&[])));
    assert!(add::has_flag_value(&args(&["-p", "-p"])));
    assert!(!add::has_flag_value(&args(&["a", "-p"])));
    assert!(!add::has_flag_value(&args(&["--priority"])));
}
