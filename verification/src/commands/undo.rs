//! Taking back the last change.

use vstd::prelude::*;

verus! {

/// What the command does, in one line.
pub fn description() -> (r: &'static str)
    ensures
        r@ == "Undo previous command"@,
{
    "Undo previous command"
}

/// The arguments that the command takes.
pub fn usage() -> (r: &'static str)
    ensures
        r@ == ""@,
{
    ""
}

} // verus!
