//! A small todo list: tasks added from the command line, kept in a text file
//! (one `status<TAB>task` line per entry), and edited in a terminal
//! interface. This crate holds the verified logic: reading and writing the
//! file format, building tasks from arguments, reading the command line, and
//! the state machine of the interface.
pub mod cli;
pub mod store;
pub mod task;
pub mod tui;

pub use task::{Status, Task};
