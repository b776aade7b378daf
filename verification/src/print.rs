//! The printer: the line that reports a match.

use crate::pattern::{first_match, Pattern};
use vstd::prelude::*;
use vstd::string::{StrSliceExecFns, StringExecFns};

verus! {

/// The characters that switch a terminal to red.
pub open spec fn red() -> Seq<char> {
    seq!['\x1b', '[', '3', '1', 'm']
}

/// The characters that switch a terminal back.
pub open spec fn plain() -> Seq<char> {
    seq!['\x1b', '[', '0', 'm']
}

/// `text` in red.
pub open spec fn marked(text: Seq<char>) -> Seq<char> {
    red() + text + plain()
}

/// `name` with the characters of `span` in red, and the rest as it was;
/// `name` itself where there is no span, or none that lies within it.
pub open spec fn highlighted(name: Seq<char>, span: Option<(int, int)>) -> Seq<char> {
    match span {
        None => name,
        Some((from, to)) => {
            if 0 <= from <= to <= name.len() {
                name.subrange(0, from) + marked(name.subrange(from, to)) + name.subrange(
                    to,
                    name.len() as int,
                )
            } else {
                name
            }
        },
    }
}

/// The path of the entry `name` in the directory `dir`. A name that starts at
/// the root stands for itself. Otherwise the two are put together, with a
/// separator between them unless `dir` is empty or ends in one.
pub open spec fn joined(dir: Seq<char>, name: Seq<char>) -> Seq<char> {
    if name.len() > 0 && name.first() == '/' {
        name
    } else if dir.len() > 0 && dir.last() != '/' {
        dir + seq!['/'] + name
    } else {
        dir + name
    }
}

/// `text` in red.
pub fn mark(text: &str) -> (out: String)
    ensures
        out@ == marked(text@),
{
    proof {
        reveal_strlit("\x1b[31m");
        reveal_strlit("\x1b[0m");
    }
    let mut out = String::from_str("\x1b[31m");
    out.append(text);
    out.append("\x1b[0m");
    out
}

/// The path of the entry `name` in the directory `dir`.
pub fn join_path(dir: &str, name: &str) -> (path: String)
    ensures
        path@ == joined(dir@, name@),
{
    proof {
        reveal_strlit("/");
    }
    if !name.is_empty() && name.get_char(0) == '/' {
        return String::from_str(name);
    }
    let mut path = String::from_str(dir);
    let len = dir.unicode_len();
    if len > 0 && dir.get_char(len - 1) != '/' {
        path.append("/");
    }
    path.append(name);
    path
}

/// What writes the line of a match: the path of the entry, with the first
/// match of the pattern in its name in red.
pub struct Printer<'a> {
    regex: &'a Pattern,
}

impl<'a> Printer<'a> {
    /// The text of the pattern.
    pub closed spec fn pattern(&self) -> Seq<char> {
        self.regex@
    }

    /// The line that reports the entry `name` of the directory `dir`.
    pub fn line(&self, dir: &str, name: &str) -> (line: String)
        ensures
            line@ == joined(dir@, highlighted(name@, first_match(self.pattern(), name@))),
    {
        let name = self.regex.highlight(name);
        join_path(dir, name.as_str())
    }
}

/// The printer of a run whose pattern is `regex`.
pub fn print_func<'a>(regex: &'a Pattern) -> (printer: Printer<'a>)
    ensures
        printer.pattern() == regex@,
{
    Printer { regex }
}

} // verus!
