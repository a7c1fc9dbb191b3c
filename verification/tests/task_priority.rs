use mama::task_priority::{PriorityError, TaskPriority};

#[test]
fn empty_string() {
    assert!(TaskPriority::from_str("").is_err());
}

#[test]
fn valid_priority() {
    assert_eq!(TaskPriority::from_str("(A)").ok(), Some(TaskPriority('A')));
    assert_eq!(TaskPriority::from_str("(Z)").ok(), Some(TaskPriority('Z')));
}

#[test]
fn too_long_priority() {
    assert_eq!(TaskPriority::from_str("(AB)"), Err(PriorityError::InvalidLength));
}

#[test]
fn no_parentheses() {
    assert_eq!(TaskPriority::from_str("(AX"), Err(PriorityError::NoParentheses));
    assert_eq!(TaskPriority::from_str("XA)"), Err(PriorityError::NoParentheses));
}

#[test]
fn invalid_character() {
    assert_eq!(TaskPriority::from_str("(a)"), Err(PriorityError::InvalidCharacter));
    assert_eq!(TaskPriority::from_str("(ß)"), Err(PriorityError::InvalidCharacter));
    assert_eq!(TaskPriority::from_str("(§)"), Err(PriorityError::InvalidCharacter));
    assert_eq!(TaskPriority::from_str("(_)"), Err(PriorityError::InvalidCharacter));
    assert_eq!(TaskPriority::from_str("(Ö)"), Err(PriorityError::InvalidCharacter));
}

#[test]
fn every_letter_reads_back_from_its_token() {
    for letter in 'A'..='Z' {
        let token = format!("({})", letter);
        let priority = TaskPriority::from_str(&token).unwrap();
        assert_eq!(priority, TaskPriority(letter));
        assert_eq!(priority.to_token(), token);
        assert_eq!(priority.to_string(), letter.to_string());
        assert!(priority == letter);
    }
}

#[test]
fn empty_text_has_the_wrong_length() {
    assert_eq!(TaskPriority::from_str(""), Err(PriorityError::InvalidLength));
    assert_eq!(TaskPriority::from_str("A"), Err(PriorityError::InvalidLength));
}

#[test]
fn characters_next_to_the_letters_are_refused() {
    assert_eq!(TaskPriority::from_str("(@)"), Err(PriorityError::InvalidCharacter));
    assert_eq!(TaskPriority::from_str("([)"), Err(PriorityError::InvalidCharacter));
    assert_eq!(TaskPriority::from_str("(1)"), Err(PriorityError::InvalidCharacter));
}

#[test]
fn a_priority_compares_with_its_letter() {
    assert!(TaskPriority('A') == 'A');
    assert!(TaskPriority('A') != 'B');
    assert!(TaskPriority('A') != 'a');
}
