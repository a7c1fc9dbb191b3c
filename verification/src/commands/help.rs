//! The help: what the program is, and what each command does.

use crate::commands::Commands;
use crate::text::{chars_of, push_chars, string_of};
use vstd::prelude::*;

verus! {

/// What the command does, in one line.
pub fn description() -> (r: &'static str)
    ensures
        r@ == "Show help for a command"@,
{
    "Show help for a command"
}

/// The width of the column that holds the names of the commands.
pub const NAME_COLUMN: usize = 14;

/// `name`, filled up with spaces at its end to the width of the name column.
pub open spec fn name_cell(name: Seq<char>) -> Seq<char> {
    if name.len() < NAME_COLUMN {
        name + Seq::new((NAME_COLUMN - name.len()) as nat, |i: int| ' ')
    } else {
        name
    }
}

/// The line of the help for one command: its name in the name column, then
/// what it does.
pub open spec fn command_line(command: Commands) -> Seq<char> {
    name_cell(command.name_text()) + command.description_text() + seq!['\n']
}

/// The lines of the help for `commands`, in order.
pub open spec fn command_lines(commands: Seq<Commands>) -> Seq<char>
    decreases commands.len(),
{
    if commands.len() == 0 {
        Seq::empty()
    } else {
        command_lines(commands.drop_last()) + command_line(commands.last())
    }
}

/// The help of the program: what it is, how it is called, and one line for
/// each command.
pub open spec fn usage_text() -> Seq<char> {
    "A command line application for managing todo.txt\n\n"@
        + "Usage: mama <command> [arguments]\n\n"@ + "Available commands:\n"@ + command_lines(
        Commands::all_spec(),
    )
}

/// Appends the line of the help for `command` to `out`.
fn push_command_line(out: &mut Vec<char>, command: Commands)
    ensures
        final(out)@ == old(out)@ + command_line(command),
{
    let name = chars_of(command.name());
    push_chars(out, &name);
    let mut k: usize = name.len();
    while k < NAME_COLUMN
        invariant
            name.len() <= k,
            k <= NAME_COLUMN || k == name.len(),
            out@ == old(out)@ + name@ + Seq::new((k - name.len()) as nat, |i: int| ' '),
        decreases NAME_COLUMN - k,
    {
        out.push(' ');
        k += 1;
    }
    proof {
        assert(out@ =~= old(out)@ + name_cell(name@));
    }
    let description = chars_of(command.description());
    push_chars(out, &description);
    out.push('\n');
    proof {
        assert(final(out)@ =~= old(out)@ + command_line(command));
    }
}

/// The help of the program.
pub fn usage() -> (r: String)
    ensures
        r@ == usage_text(),
{
    let mut out: Vec<char> = chars_of("A command line application for managing todo.txt\n\n");
    let second = chars_of("Usage: mama <command> [arguments]\n\n");
    push_chars(&mut out, &second);
    let third = chars_of("Available commands:\n");
    push_chars(&mut out, &third);
    let ghost head = out@;
    let commands = Commands::all();
    let mut i: usize = 0;
    proof {
        assert(commands@.take(0) =~= Seq::<Commands>::empty());
    }
    while i < commands.len()
        invariant
            i <= commands.len(),
            out@ == head + command_lines(commands@.take(i as int)),
        decreases commands.len() - i,
    {
        push_command_line(&mut out, commands[i]);
        proof {
            let taken = commands@.take(i + 1);
            assert(taken.drop_last() =~= commands@.take(i as int));
            assert(taken.last() == commands@[i as int]);
        }
        i += 1;
    }
    proof {
        assert(commands@.take(commands.len() as int) =~= commands@);
    }
    string_of(&out)
}

} // verus!
