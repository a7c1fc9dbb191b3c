//! A todo.txt task list: the text grammar of a task line, task identifiers
//! and priorities, and the in-memory store that the command line works on.

pub mod commands;
pub mod date;
pub mod decimal;
pub mod error;
pub mod listing;
pub mod round_trip;
pub mod task;
pub mod task_id;
pub mod task_priority;
pub mod text;
pub mod todo_file;
pub mod words;

pub use task::Task;
pub use task_id::TaskId;
pub use task_priority::TaskPriority;
pub use todo_file::TodoFile;
