//! A file finder as a library: a traversal engine that walks a directory tree
//! one event at a time, a matcher that filters entries by type and by a
//! pattern on their names, and a printer that highlights the first match.
//!
//! The library never touches the file system itself. The caller lists
//! directories and prints lines; every decision in between is made here.

pub mod cli;
pub mod compare;
pub mod entry;
pub mod laws;
pub mod model;
pub mod order;
pub mod pattern;
pub mod print;
pub mod walk;

pub use cli::{CliArgs, FileType};
pub use compare::{compare_func, Matcher, NameFilter};
pub use entry::{Entry, EntryKind};
pub use pattern::{Pattern, PatternError};
pub use print::{print_func, Printer};
pub use walk::{walk, Action, Event, Walker};
