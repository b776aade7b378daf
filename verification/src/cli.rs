//! The options of one run.

use vstd::prelude::*;
use vstd::string::StringExecFns;

verus! {

/// The kind of entry that a run reports.
#[derive(Debug, Clone, Copy, PartialEq, Eq, Structural)]
pub enum FileType {
    /// Every kind.
    All,
    /// Regular files.
    File,
    /// Directories.
    Dir,
    /// Symbolic links.
    Link,
    /// Sockets.
    Socket,
    /// Character devices.
    CharDevice,
}

/// The options of one run, as given on the command line.
#[derive(Debug)]
pub struct CliArgs {
    /// The directory to start from; empty stands for the current directory.
    pub path: String,
    /// The pattern that a name has to match; empty matches every name.
    pub regexp: String,
    /// Whether subdirectories are walked too.
    pub recursive: bool,
    /// The kind of entry to report.
    pub filetype: FileType,
    /// Whether a subdirectory that cannot be listed is reported.
    pub print_errors: bool,
}

/// The text of the path that stands for the current directory.
pub open spec fn current_dir() -> Seq<char> {
    seq!['.']
}

/// The directory that a run starts from when `path` was given: `path` itself,
/// or the current directory where `path` is empty.
pub open spec fn start_path_of(path: Seq<char>) -> Seq<char> {
    if path.len() == 0 {
        current_dir()
    } else {
        path
    }
}

impl CliArgs {
    /// The options of a run to which nothing was given: the current directory,
    /// the empty pattern, no recursion, every kind, no error reports.
    pub fn new() -> (args: CliArgs)
        ensures
            args.path@ == Seq::<char>::empty(),
            args.regexp@ == Seq::<char>::empty(),
            !args.recursive,
            args.filetype == FileType::All,
            !args.print_errors,
    {
        CliArgs {
            path: String::new(),
            regexp: String::new(),
            recursive: false,
            filetype: FileType::All,
            print_errors: false,
        }
    }

    /// The directory that the run starts from.
    pub fn start_path(&self) -> (root: String)
        ensures
            root@ == start_path_of(self.path@),
    {
        if self.path.as_str().is_empty() {
            proof {
                reveal_strlit(".");
            }
            String::from_str(".")
        } else {
            self.path.clone()
        }
    }
}

} // verus!
