//! The commands of the command line, by name.

use crate::text::same_text;
use vstd::prelude::*;

pub mod add;
pub mod complete;
pub mod help;
pub mod list;
pub mod remove;
pub mod uncomplete;
pub mod undo;
pub mod util;

verus! {

/// A command of the command line.
#[derive(Clone, Copy, Debug, PartialEq, Eq, Structural)]
pub enum Commands {
    Add,
    Complete,
    Help,
    List,
    Remove,
    Uncomplete,
    Undo,
}

/// The command that goes by `name`, if there is one.
pub open spec fn command_of(name: Seq<char>) -> Option<Commands> {
    if name == "add"@ {
        Some(Commands::Add)
    } else if name == "complete"@ {
        Some(Commands::Complete)
    } else if name == "help"@ {
        Some(Commands::Help)
    } else if name == "ls"@ {
        Some(Commands::List)
    } else if name == "rm"@ {
        Some(Commands::Remove)
    } else if name == "uncomplete"@ {
        Some(Commands::Uncomplete)
    } else if name == "undo"@ {
        Some(Commands::Undo)
    } else {
        None
    }
}

impl Commands {
    /// The name that the user types for the command.
    pub open spec fn name_text(self) -> Seq<char> {
        match self {
            Commands::Add => "add"@,
            Commands::Complete => "complete"@,
            Commands::Help => "help"@,
            Commands::List => "ls"@,
            Commands::Remove => "rm"@,
            Commands::Uncomplete => "uncomplete"@,
            Commands::Undo => "undo"@,
        }
    }

    /// What the command does, in one line.
    pub open spec fn description_text(self) -> Seq<char> {
        match self {
            Commands::Add => "Add a new task to the list"@,
            Commands::Complete => "Mark a task as completed"@,
            Commands::Help => "Show help for a command"@,
            Commands::List => "List all tasks"@,
            Commands::Remove => "Remove a task from the list"@,
            Commands::Uncomplete => "Mark a previously finished task as uncompleted"@,
            Commands::Undo => "Undo previous command"@,
        }
    }

    /// The arguments that the command takes.
    pub open spec fn usage_text(self) -> Seq<char> {
        match self {
            Commands::Add => "[-p <PRIORITY>] <description of task to add>\n    -p PRIORITY   set the priority level of the added task"@,
            Commands::Complete => "<id of finished task>..."@,
            Commands::Help => help::usage_text(),
            Commands::List => "[-l/--long] [<FILTER>]\n    -l, --long    detailed output\n    FILTER        only show tasks matching words in FILTER"@,
            Commands::Remove => "<id of task to delete>..."@,
            Commands::Uncomplete => "<id of finished task>..."@,
            Commands::Undo => ""@,
        }
    }

    /// The commands in the order in which the help shows them.
    pub open spec fn all_spec() -> Seq<Commands> {
        seq![
            Commands::Add,
            Commands::Complete,
            Commands::Help,
            Commands::List,
            Commands::Remove,
            Commands::Uncomplete,
            Commands::Undo,
        ]
    }

    /// The commands in the order in which the help shows them.
    pub fn all() -> (r: Vec<Commands>)
        ensures
            r@ == Commands::all_spec(),
    {
        let mut r: Vec<Commands> = Vec::new();
        r.push(Commands::Add);
        r.push(Commands::Complete);
        r.push(Commands::Help);
        r.push(Commands::List);
        r.push(Commands::Remove);
        r.push(Commands::Uncomplete);
        r.push(Commands::Undo);
        proof {
            assert(r@ =~= Commands::all_spec());
        }
        r
    }

    /// The command that the user means by `name`.
    pub fn from_str(name: &str) -> (r: Option<Commands>)
        ensures
            r == command_of(name@),
    {
        if same_text(name, "add") {
            Some(Commands::Add)
        } else if same_text(name, "complete") {
            Some(Commands::Complete)
        } else if same_text(name, "help") {
            Some(Commands::Help)
        } else if same_text(name, "ls") {
            Some(Commands::List)
        } else if same_text(name, "rm") {
            Some(Commands::Remove)
        } else if same_text(name, "uncomplete") {
            Some(Commands::Uncomplete)
        } else if same_text(name, "undo") {
            Some(Commands::Undo)
        } else {
            None
        }
    }

    /// The name that the user types for the command.
    pub fn name(&self) -> (r: &'static str)
        ensures
            r@ == self.name_text(),
    {
        match self {
            Commands::Add => "add",
            Commands::Complete => "complete",
            Commands::Help => "help",
            Commands::List => "ls",
            Commands::Remove => "rm",
            Commands::Uncomplete => "uncomplete",
            Commands::Undo => "undo",
        }
    }

    /// What the command does, in one line.
    pub fn description(&self) -> (r: &'static str)
        ensures
            r@ == self.description_text(),
    {
        match self {
            Commands::Add => add::description(),
            Commands::Complete => complete::description(),
            Commands::Help => help::description(),
            Commands::List => list::description(),
            Commands::Remove => remove::description(),
            Commands::Uncomplete => uncomplete::description(),
            Commands::Undo => undo::description(),
        }
    }

    /// The arguments that the command takes.
    pub fn usage(&self) -> (r: String)
        ensures
            r@ == self.usage_text(),
    {
        match self {
            Commands::Add => add::usage().to_owned(),
            Commands::Complete => complete::usage().to_owned(),
            Commands::Help => help::usage(),
            Commands::List => list::usage().to_owned(),
            Commands::Remove => remove::usage().to_owned(),
            Commands::Uncomplete => uncomplete::usage().to_owned(),
            Commands::Undo => undo::usage().to_owned(),
        }
    }
}

} // verus!
