use mama::error::Error;
use mama::task_id::TaskId;

#[test]
fn formatted_ids_are_1_indexed() {
    assert_eq!(TaskId(0).to_string(), "1");
}

#[test]
fn internal_ids_are_0_indexed() {
    assert_eq!(Ok(TaskId(0)), TaskId::from_str("1"));
}

#[test]
fn zero_is_refused() {
    assert_eq!(TaskId::from_str("0"), Err(Error::ZeroId));
    assert_eq!(TaskId::from_str("000"), Err(Error::ZeroId));
    assert_eq!(TaskId::from_str("+0"), Err(Error::ZeroId));
}

#[test]
fn text_that_is_no_number_is_refused() {
    for text in ["x", "", "+", "-1", "1 ", " 1", "1x", "++1", "1.5", "٣"] {
        assert_eq!(TaskId::from_str(text), Err(Error::NonnumericId), "{:?}", text);
    }
}

#[test]
fn a_number_too_large_for_the_machine_is_refused() {
    let beyond = format!("{}0", usize::MAX);
    assert_eq!(TaskId::from_str(&beyond), Err(Error::NonnumericId));
    let next = format!("{}", usize::MAX as u128 + 1);
    assert_eq!(TaskId::from_str(&next), Err(Error::NonnumericId));
    let last = format!("{}", usize::MAX);
    assert_eq!(TaskId::from_str(&last), Ok(TaskId(usize::MAX - 1)));
}

#[test]
fn reading_agrees_with_the_standard_library() {
    for text in ["1", "7", "10", "042", "+5", "99999", "18446744073709551615", "", "+", "-", "a1", "1_000"] {
        let expected = match text.parse::<usize>() {
            Ok(0) => Err(Error::ZeroId),
            Ok(n) => Ok(TaskId(n - 1)),
            Err(_) => Err(Error::NonnumericId),
        };
        assert_eq!(TaskId::from_str(text), expected, "{:?}", text);
    }
}

#[test]
fn ids_read_back_from_their_text() {
    for n in [0usize, 1, 8, 9, 10, 98, 99, 100, 12344, usize::MAX - 1] {
        let id = TaskId(n);
        assert_eq!(id.to_string(), (n as u128 + 1).to_string());
        assert_eq!(TaskId::from_str(&id.to_string()), Ok(id));
    }
}

#[test]
fn the_largest_id_is_shown_without_wrapping() {
    assert_eq!(TaskId(usize::MAX).to_string(), (usize::MAX as u128 + 1).to_string());
}

#[test]
fn ids_are_ordered_by_their_number() {
    assert!(TaskId(1) < TaskId(2));
    assert!(TaskId(2) == TaskId(2));
    assert!(TaskId(3) > TaskId(2));
}

#[test]
fn ids_compare_with_plain_numbers() {
    assert!(TaskId(3) == 3usize);
    assert!(TaskId(3) != 4usize);
    assert!(TaskId(3) < 4usize);
    assert!(TaskId(3) <= 3usize);
    assert!(TaskId(3) > 2usize);
    assert_eq!(TaskId(3).partial_cmp(&3usize), Some(std::cmp::Ordering::Equal));
    assert_eq!(TaskId(3).partial_cmp(&9usize), Some(std::cmp::Ordering::Less));
    assert_eq!(TaskId(3).partial_cmp(&0usize), Some(std::cmp::Ordering::Greater));
}
