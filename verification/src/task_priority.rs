//! The priority of a task: one capital letter, written `(A)` in a task line.

use crate::text::{chars_of, string_of};
use vstd::prelude::*;

verus! {

/// A priority letter.
#[derive(Clone, Copy, Debug, PartialEq, Eq, Structural)]
pub struct TaskPriority(pub char);

/// Why a text is no priority.
#[derive(Clone, Copy, Debug, PartialEq, Eq, Structural)]
pub enum PriorityError {
    /// The text is not three characters long.
    InvalidLength,
    /// The text does not start with `(` and end with `)`.
    NoParentheses,
    /// The character between the parentheses is no capital ASCII letter.
    InvalidCharacter,
}

/// Whether `c` is one of the capital letters `A` to `Z`.
pub open spec fn is_priority_letter(c: char) -> bool {
    'A' <= c <= 'Z'
}

/// What `s` denotes as a priority: `(`, a capital ASCII letter and `)`, or
/// the first reason why it is none.
pub open spec fn priority_of(s: Seq<char>) -> Result<TaskPriority, PriorityError> {
    if s.len() != 3 {
        Err(PriorityError::InvalidLength)
    } else if s[0] != '(' || s[2] != ')' {
        Err(PriorityError::NoParentheses)
    } else if !is_priority_letter(s[1]) {
        Err(PriorityError::InvalidCharacter)
    } else {
        Ok(TaskPriority(s[1]))
    }
}

impl TaskPriority {
    /// The letter is a capital ASCII letter.
    pub open spec fn wf(self) -> bool {
        is_priority_letter(self.0)
    }

    /// The three characters that stand for this priority in a task line.
    pub open spec fn token(self) -> Seq<char> {
        seq!['(', self.0, ')']
    }

    /// Reads a priority from its three characters.
    pub fn from_chars(s: &Vec<char>) -> (r: Result<TaskPriority, PriorityError>)
        ensures
            r == priority_of(s@),
            r matches Ok(p) ==> p.wf(),
    {
        if s.len() != 3 {
            Err(PriorityError::InvalidLength)
        } else if s[0] != '(' || s[2] != ')' {
            Err(PriorityError::NoParentheses)
        } else if !('A' <= s[1] && s[1] <= 'Z') {
            Err(PriorityError::InvalidCharacter)
        } else {
            Ok(TaskPriority(s[1]))
        }
    }

    /// Reads a priority from a text of the form `(A)`.
    pub fn from_str(s: &str) -> (r: Result<TaskPriority, PriorityError>)
        ensures
            r == priority_of(s@),
            r matches Ok(p) ==> p.wf(),
    {
        let chars = chars_of(s);
        TaskPriority::from_chars(&chars)
    }

    /// The bare letter, as a list of tasks shows it.
    pub fn to_string(&self) -> (s: String)
        ensures
            s@ == seq![self.0],
    {
        let mut chars: Vec<char> = Vec::new();
        chars.push(self.0);
        string_of(&chars)
    }

    /// The priority as a task line holds it: the letter in parentheses.
    pub fn to_token(&self) -> (s: String)
        ensures
            s@ == self.token(),
    {
        let mut chars: Vec<char> = Vec::new();
        chars.push('(');
        chars.push(self.0);
        chars.push(')');
        string_of(&chars)
    }
}

impl PartialEq<char> for TaskPriority {
    /// Whether the letter is `other`.
    fn eq(&self, other: &char) -> (r: bool) {
        self.0 == *other
    }
}

impl vstd::std_specs::cmp::PartialEqSpecImpl<char> for TaskPriority {
    open spec fn obeys_eq_spec() -> bool {
        true
    }

    open spec fn eq_spec(&self, other: &char) -> bool {
        self.0 == *other
    }
}

/// Every priority with a capital letter reads back from its token as itself,
/// and the text made of `(`, a capital letter and `)` is the token of the
/// priority that it denotes.
pub proof fn lemma_priority_token_round_trip(letter: char)
    requires
        is_priority_letter(letter),
    ensures
        priority_of(TaskPriority(letter).token()) == Ok::<TaskPriority, PriorityError>(
            TaskPriority(letter),
        ),
        priority_of(seq!['(', letter, ')']) matches Ok(p) && p.token() == seq!['(', letter, ')'],
{
}

} // verus!
