use filefind::print::{join_path, mark};
use filefind::{print_func, Pattern};

fn line(pattern: &str, dir: &str, name: &str) -> String {
    let pattern = Pattern::new(pattern).unwrap();
    print_func(&pattern).line(dir, name)
}

fn highlight(pattern: &str, name: &str) -> String {
    Pattern::new(pattern).unwrap().highlight(name)
}

#[test]
fn mark_wraps_in_red() {
    assert_eq!(mark("foo"), "\x1b[31mfoo\x1b[0m");
    assert_eq!(mark(""), "\x1b[31m\x1b[0m");
    assert_eq!(mark("\u{e9}t\u{e9}"), "\x1b[31m\u{e9}t\u{e9}\x1b[0m");
}

#[test]
fn join_path_puts_a_separator_between() {
    assert_eq!(join_path("dir", "name"), "dir/name");
    assert_eq!(join_path("a/b", "c"), "a/b/c");
    assert_eq!(join_path(".", "x"), "./x");
}

#[test]
fn join_path_adds_no_second_separator() {
    assert_eq!(join_path("dir/", "name"), "dir/name");
    assert_eq!(join_path("/", "name"), "/name");
}

#[test]
fn join_path_of_empty_parts() {
    assert_eq!(join_path("", "name"), "name");
    assert_eq!(join_path("dir", ""), "dir/");
    assert_eq!(join_path("", ""), "");
}

#[test]
fn join_path_lets_a_rooted_name_stand() {
    assert_eq!(join_path("dir", "/name"), "/name");
    assert_eq!(join_path("", "/"), "/");
}

#[test]
fn join_path_agrees_with_std() {
    for dir in ["", ".", "/", "a", "a/", "a/b", "\u{e9}", "a//"] {
        for name in ["", "x", "/x", "x/y", "\x1b[31mx\x1b[0m", "\u{e9}"] {
            let expected = std::path::Path::new(dir).join(name);
            assert_eq!(join_path(dir, name), expected.to_string_lossy());
        }
    }
}

#[test]
fn highlight_wraps_the_match() {
    assert_eq!(highlight("foo", "foobar"), "\x1b[31mfoo\x1b[0mbar");
    assert_eq!(highlight("bar", "foobar"), "foo\x1b[31mbar\x1b[0m");
    assert_eq!(highlight("ob", "foobar"), "fo\x1b[31mob\x1b[0mar");
    assert_eq!(highlight("foobar", "foobar"), "\x1b[31mfoobar\x1b[0m");
}

#[test]
fn highlight_wraps_only_the_first_match() {
    assert_eq!(highlight("foo", "foofoo"), "\x1b[31mfoo\x1b[0mfoo");
    assert_eq!(highlight("o", "foo"), "f\x1b[31mo\x1b[0mo");
}

#[test]
fn highlight_leaves_a_name_without_match() {
    assert_eq!(highlight("foo", "bar"), "bar");
    assert_eq!(highlight("foo", ""), "");
}

#[test]
fn highlight_of_the_empty_pattern_marks_nothing_at_the_start() {
    assert_eq!(highlight("", "name"), "\x1b[31m\x1b[0mname");
    assert_eq!(highlight("", ""), "\x1b[31m\x1b[0m");
}

#[test]
fn highlight_counts_in_characters() {
    assert_eq!(highlight("t", "\u{e9}t\u{e9}"), "\u{e9}\x1b[31mt\x1b[0m\u{e9}");
    assert_eq!(highlight("\u{e9}+", "a\u{e9}\u{e9}b"), "a\x1b[31m\u{e9}\u{e9}\x1b[0mb");
}

#[test]
fn line_joins_directory_and_highlighted_name() {
    assert_eq!(line("foo", "dir", "foobar"), "dir/\x1b[31mfoo\x1b[0mbar");
    assert_eq!(line("foo", "dir", "foofoo"), "dir/\x1b[31mfoo\x1b[0mfoo");
    assert_eq!(line("foo", "a/b/", "xfoo"), "a/b/x\x1b[31mfoo\x1b[0m");
    assert_eq!(line("foo", ".", "bar"), "./bar");
}

#[test]
fn line_of_the_empty_pattern() {
    assert_eq!(line("", ".", "name"), "./\x1b[31m\x1b[0mname");
}
