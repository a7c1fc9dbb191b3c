//! The number of a task: counted from zero inside, shown and read from one.

use crate::decimal::{
    decimal_text,
    lemma_decimal_text,
    parse_unsigned,
    push_decimal,
    unsigned_value,
};
use crate::error::Error;
use crate::text::{chars_of, string_of};
use std::cmp::Ordering;
use vstd::prelude::*;
use vstd::std_specs::cmp::{PartialEqSpecImpl, PartialOrdSpecImpl};

verus! {

/// The position of a task in the list, counted from zero. Users see and type
/// it counted from one.
#[derive(Debug, Clone, Copy, Eq, Hash, Ord, PartialEq, PartialOrd, Structural)]
pub struct TaskId(pub usize);

/// What `s` denotes as a task number typed by the user: the number must be a
/// decimal that fits the machine word, and must not be zero.
pub open spec fn task_id_of(s: Seq<char>) -> Result<TaskId, Error> {
    match unsigned_value(s) {
        Some(n) => if n > usize::MAX {
            Err(Error::NonnumericId)
        } else if n == 0 {
            Err(Error::ZeroId)
        } else {
            Ok(TaskId((n - 1) as usize))
        },
        None => Err(Error::NonnumericId),
    }
}

impl TaskId {
    /// The number as the user sees it: one more than the inner index, in
    /// decimal.
    pub open spec fn text(self) -> Seq<char> {
        decimal_text(self.0 as nat + 1)
    }

    /// Reads a task number as the user types it.
    pub fn from_str(s: &str) -> (r: Result<TaskId, Error>)
        ensures
            r == task_id_of(s@),
    {
        let chars = chars_of(s);
        match parse_unsigned(&chars) {
            Some(n) => if n < 1 {
                Err(Error::ZeroId)
            } else {
                Ok(TaskId(n - 1))
            },
            None => Err(Error::NonnumericId),
        }
    }

    /// The number as the user sees it.
    pub fn to_string(&self) -> (s: String)
        ensures
            s@ == self.text(),
    {
        let mut chars: Vec<char> = Vec::new();
        push_decimal(&mut chars, self.0 as u128 + 1);
        string_of(&chars)
    }
}

impl PartialEq<usize> for TaskId {
    /// Whether the inner index is `other`.
    fn eq(&self, other: &usize) -> (r: bool) {
        self.0 == *other
    }
}

impl PartialEqSpecImpl<usize> for TaskId {
    open spec fn obeys_eq_spec() -> bool {
        true
    }

    open spec fn eq_spec(&self, other: &usize) -> bool {
        self.0 == *other
    }
}

impl PartialOrd<usize> for TaskId {
    /// How the inner index stands to `other`.
    fn partial_cmp(&self, other: &usize) -> (r: Option<Ordering>) {
        if self.0 < *other {
            Some(Ordering::Less)
        } else if self.0 > *other {
            Some(Ordering::Greater)
        } else {
            Some(Ordering::Equal)
        }
    }
}

impl PartialOrdSpecImpl<usize> for TaskId {
    open spec fn obeys_partial_cmp_spec() -> bool {
        true
    }

    open spec fn partial_cmp_spec(&self, other: &usize) -> Option<Ordering> {
        if self.0 < *other {
            Some(Ordering::Less)
        } else if self.0 > *other {
            Some(Ordering::Greater)
        } else {
            Some(Ordering::Equal)
        }
    }
}

/// A task number reads back from its text as itself, as long as the number
/// shown still fits the machine word.
pub proof fn lemma_task_id_round_trip(id: TaskId)
    requires
        id.0 < usize::MAX,
    ensures
        task_id_of(id.text()) == Ok::<TaskId, Error>(id),
{
    lemma_decimal_text(id.0 as nat + 1);
}

/// The text `0` is refused as a zero, and a text that holds anything but an
/// optional sign and digits as no number.
pub proof fn lemma_task_id_rejections(s: Seq<char>)
    ensures
        task_id_of(seq!['0']) == Err::<TaskId, Error>(Error::ZeroId),
        unsigned_value(s) is None ==> task_id_of(s) == Err::<TaskId, Error>(Error::NonnumericId),
{
    let zero = seq!['0'];
    assert(zero.drop_last() =~= Seq::<char>::empty());
    assert(crate::decimal::digits_value(zero.drop_last()) == 0);
    assert(crate::decimal::digits_value(zero) == 0);
}

} // verus!
