use filefind::{
    compare_func, walk, Action, Entry, EntryKind, Event, FileType, Matcher, Pattern, Walker,
};
use std::collections::HashMap;

/// What listing each directory yields.
type Tree = HashMap<String, Result<Vec<Entry<String>>, String>>;

/// What a walk asked for, in order.
#[derive(Debug, Clone, PartialEq, Eq)]
enum Asked {
    List(String),
    Report(String, String),
    ReportError(String, String),
}

fn entry(dir: &str, name: &str, kind: EntryKind) -> Entry<String> {
    Entry { path: format!("{dir}/{name}"), name: Some(String::from(name)), kind: Some(kind) }
}

fn file(dir: &str, name: &str) -> Entry<String> {
    entry(dir, name, EntryKind::File)
}

fn dir(parent: &str, name: &str) -> Entry<String> {
    entry(parent, name, EntryKind::Dir)
}

/// root
/// ├── a.txt
/// ├── sub/
/// │   ├── b.txt
/// │   ├── deep/
/// │   │   └── c.txt
/// │   └── d.log
/// ├── locked/        (cannot be listed)
/// ├── link -> a.txt
/// └── z.txt
fn sample() -> Tree {
    let mut tree = Tree::new();
    tree.insert(
        String::from("root"),
        Ok(vec![
            file("root", "a.txt"),
            dir("root", "sub"),
            dir("root", "locked"),
            entry("root", "link", EntryKind::Link),
            file("root", "z.txt"),
        ]),
    );
    tree.insert(
        String::from("root/sub"),
        Ok(vec![file("root/sub", "b.txt"), dir("root/sub", "deep"), file("root/sub", "d.log")]),
    );
    tree.insert(String::from("root/sub/deep"), Ok(vec![file("root/sub/deep", "c.txt")]));
    tree.insert(String::from("root/locked"), Err(String::from("permission denied")));
    tree
}

fn drive<M: Matcher>(
    tree: &Tree,
    root: &str,
    recursive: bool,
    print_errors: bool,
    filter: &M,
) -> (Vec<Asked>, Result<(), String>) {
    let mut walker = Walker::new(String::from(root), recursive, print_errors);
    let mut asked = Vec::new();
    let mut event = Event::Resume;
    loop {
        assert!(asked.len() < 10_000, "the walk does not end");
        match walk(&mut walker, event, filter) {
            Action::List { path } => {
                asked.push(Asked::List(path.clone()));
                let outcome = match tree.get(&path) {
                    Some(listing) => listing.clone(),
                    None => Err(String::from("not found")),
                };
                event = Event::Listed { path, outcome };
            },
            Action::Report { dir, name } => {
                asked.push(Asked::Report(dir.clone(), name));
                event = Event::Resume;
            },
            Action::ReportError { error, dir } => {
                asked.push(Asked::ReportError(error, dir.clone()));
                event = Event::Resume;
            },
            Action::Finished(result) => return (asked, result),
        }
    }
}

fn find(
    tree: &Tree,
    pattern: &str,
    ftype: FileType,
    recursive: bool,
    print_errors: bool,
) -> (Vec<Asked>, Result<(), String>) {
    let pattern = Pattern::new(pattern).unwrap();
    let filter = compare_func(&pattern, ftype);
    drive(tree, "root", recursive, print_errors, &filter)
}

fn reports(asked: &[Asked]) -> Vec<(String, String)> {
    let mut found = Vec::new();
    for item in asked {
        if let Asked::Report(dir, name) = item {
            found.push((dir.clone(), name.clone()));
        }
    }
    found
}

fn errors(asked: &[Asked]) -> Vec<(String, String)> {
    let mut found = Vec::new();
    for item in asked {
        if let Asked::ReportError(error, dir) = item {
            found.push((error.clone(), dir.clone()));
        }
    }
    found
}

fn pairs(items: &[(&str, &str)]) -> Vec<(String, String)> {
    items.iter().map(|(dir, name)| (String::from(*dir), String::from(*name))).collect()
}

#[test]
fn walk_begins_by_listing_the_root() {
    let filter_pattern = Pattern::new("").unwrap();
    let filter = compare_func(&filter_pattern, FileType::All);
    let mut walker = Walker::new(String::from("root"), false, false);
    let first: Action<String, String> = walk(&mut walker, Event::Resume, &filter);
    assert!(matches!(first, Action::List { path } if path == "root"));
}

#[test]
fn flat_walk_reports_the_children_only() {
    let (asked, result) = find(&sample(), "", FileType::All, false, false);
    assert_eq!(result, Ok(()));
    assert_eq!(
        asked,
        vec![
            Asked::List(String::from("root")),
            Asked::Report(String::from("root"), String::from("a.txt")),
            Asked::Report(String::from("root"), String::from("sub")),
            Asked::Report(String::from("root"), String::from("locked")),
            Asked::Report(String::from("root"), String::from("link")),
            Asked::Report(String::from("root"), String::from("z.txt")),
        ]
    );
}

#[test]
fn flat_walk_filters_by_name() {
    let (asked, result) = find(&sample(), r"\.txt$", FileType::All, false, false);
    assert_eq!(result, Ok(()));
    assert_eq!(reports(&asked), pairs(&[("root", "a.txt"), ("root", "z.txt")]));
    assert_eq!(asked.len(), 3);
}

#[test]
fn flat_walk_filters_by_type() {
    let (asked, _) = find(&sample(), "", FileType::Dir, false, false);
    assert_eq!(reports(&asked), pairs(&[("root", "sub"), ("root", "locked")]));
    let (asked, _) = find(&sample(), "", FileType::Link, false, false);
    assert_eq!(reports(&asked), pairs(&[("root", "link")]));
    let (asked, _) = find(&sample(), "", FileType::Socket, false, false);
    assert_eq!(reports(&asked), pairs(&[]));
}

#[test]
fn deep_walk_reports_every_match_in_walk_order() {
    let (asked, result) = find(&sample(), "", FileType::All, true, false);
    assert_eq!(result, Ok(()));
    assert_eq!(
        asked,
        vec![
            Asked::List(String::from("root")),
            Asked::Report(String::from("root"), String::from("a.txt")),
            Asked::Report(String::from("root"), String::from("sub")),
            Asked::List(String::from("root/sub")),
            Asked::Report(String::from("root/sub"), String::from("b.txt")),
            Asked::Report(String::from("root/sub"), String::from("deep")),
            Asked::List(String::from("root/sub/deep")),
            Asked::Report(String::from("root/sub/deep"), String::from("c.txt")),
            Asked::Report(String::from("root/sub"), String::from("d.log")),
            Asked::Report(String::from("root"), String::from("locked")),
            Asked::List(String::from("root/locked")),
            Asked::Report(String::from("root"), String::from("link")),
            Asked::Report(String::from("root"), String::from("z.txt")),
        ]
    );
}

#[test]
fn deep_walk_goes_into_directories_that_do_not_match() {
    let (asked, result) = find(&sample(), r"^c\.", FileType::File, true, false);
    assert_eq!(result, Ok(()));
    assert_eq!(reports(&asked), pairs(&[("root/sub/deep", "c.txt")]));
    assert_eq!(
        asked,
        vec![
            Asked::List(String::from("root")),
            Asked::List(String::from("root/sub")),
            Asked::List(String::from("root/sub/deep")),
            Asked::Report(String::from("root/sub/deep"), String::from("c.txt")),
            Asked::List(String::from("root/locked")),
        ]
    );
}

#[test]
fn dir_and_file_results_do_not_overlap() {
    let (dirs, _) = find(&sample(), "", FileType::Dir, true, false);
    let (files, _) = find(&sample(), "", FileType::File, true, false);
    let dirs = reports(&dirs);
    let files = reports(&files);
    assert_eq!(dirs, pairs(&[("root", "sub"), ("root/sub", "deep"), ("root", "locked")]));
    assert_eq!(
        files,
        pairs(&[
            ("root", "a.txt"),
            ("root/sub", "b.txt"),
            ("root/sub/deep", "c.txt"),
            ("root/sub", "d.log"),
            ("root", "z.txt"),
        ])
    );
    for found in &dirs {
        assert!(!files.contains(found));
    }
}

#[test]
fn failed_subdirectory_is_reported_once_with_its_parent() {
    let (asked, result) = find(&sample(), "", FileType::File, true, true);
    assert_eq!(result, Ok(()));
    assert_eq!(errors(&asked), pairs(&[("permission denied", "root")]));
    let at = asked.iter().position(|item| matches!(item, Asked::ReportError(..))).unwrap();
    assert_eq!(asked[at - 1], Asked::List(String::from("root/locked")));
    assert_eq!(asked[at + 1], Asked::Report(String::from("root"), String::from("z.txt")));
}

#[test]
fn failed_subdirectory_is_passed_over_in_silence() {
    let (asked, result) = find(&sample(), "", FileType::File, true, false);
    assert_eq!(result, Ok(()));
    assert_eq!(errors(&asked), pairs(&[]));
    let (loud, _) = find(&sample(), "", FileType::File, true, true);
    assert_eq!(reports(&asked), reports(&loud));
}

#[test]
fn failed_subdirectory_deep_down_names_the_directory_around_it() {
    let mut tree = sample();
    tree.insert(String::from("root/sub/deep"), Err(String::from("gone")));
    let (asked, result) = find(&tree, "", FileType::All, true, true);
    assert_eq!(result, Ok(()));
    assert_eq!(errors(&asked), pairs(&[("gone", "root/sub"), ("permission denied", "root")]));
    assert_eq!(
        reports(&asked),
        pairs(&[
            ("root", "a.txt"),
            ("root", "sub"),
            ("root/sub", "b.txt"),
            ("root/sub", "deep"),
            ("root/sub", "d.log"),
            ("root", "locked"),
            ("root", "link"),
            ("root", "z.txt"),
        ])
    );
}

#[test]
fn flat_walk_never_lists_a_subdirectory() {
    let (asked, _) = find(&sample(), "", FileType::All, false, true);
    assert_eq!(errors(&asked), pairs(&[]));
    let lists = asked.iter().filter(|item| matches!(item, Asked::List(_))).count();
    assert_eq!(lists, 1);
}

#[test]
fn failed_root_ends_the_walk_with_the_failure() {
    for print_errors in [false, true] {
        for recursive in [false, true] {
            let pattern = Pattern::new("").unwrap();
            let filter = compare_func(&pattern, FileType::All);
            let (asked, result) = drive(&sample(), "nowhere", recursive, print_errors, &filter);
            assert_eq!(result, Err(String::from("not found")));
            assert_eq!(asked, vec![Asked::List(String::from("nowhere"))]);
        }
    }
}

#[test]
fn empty_directory_ends_the_walk_well() {
    let mut tree = Tree::new();
    tree.insert(String::from("root"), Ok(Vec::new()));
    let (asked, result) = find(&tree, "", FileType::All, true, true);
    assert_eq!(result, Ok(()));
    assert_eq!(asked, vec![Asked::List(String::from("root"))]);
}

#[test]
fn no_match_ends_the_walk_well() {
    let (asked, result) = find(&sample(), "no such name", FileType::All, true, false);
    assert_eq!(result, Ok(()));
    assert_eq!(reports(&asked), pairs(&[]));
}

#[test]
fn entry_without_a_name_is_neither_reported_nor_entered() {
    let mut tree = sample();
    tree.insert(
        String::from("root"),
        Ok(vec![
            file("root", "a.txt"),
            Entry { path: String::from("root/sub"), name: None, kind: Some(EntryKind::Dir) },
            file("root", "z.txt"),
        ]),
    );
    let (asked, result) = find(&tree, "", FileType::All, true, true);
    assert_eq!(result, Ok(()));
    assert_eq!(
        asked,
        vec![
            Asked::List(String::from("root")),
            Asked::Report(String::from("root"), String::from("a.txt")),
            Asked::Report(String::from("root"), String::from("z.txt")),
        ]
    );
}

#[test]
fn entry_of_unknown_kind_is_neither_reported_nor_entered() {
    let mut tree = sample();
    tree.insert(
        String::from("root"),
        Ok(vec![
            Entry { path: String::from("root/sub"), name: Some(String::from("sub")), kind: None },
            file("root", "z.txt"),
        ]),
    );
    let (asked, result) = find(&tree, "", FileType::All, true, true);
    assert_eq!(result, Ok(()));
    assert_eq!(
        asked,
        vec![
            Asked::List(String::from("root")),
            Asked::Report(String::from("root"), String::from("z.txt")),
        ]
    );
}

#[test]
fn symbolic_link_is_not_entered() {
    let mut tree = sample();
    tree.insert(String::from("root/link"), Ok(vec![file("root/link", "inside")]));
    let (asked, _) = find(&tree, "inside", FileType::All, true, true);
    assert_eq!(reports(&asked), pairs(&[]));
    assert!(!asked.contains(&Asked::List(String::from("root/link"))));
}

#[test]
fn entries_are_visited_in_the_order_of_the_listing() {
    let mut tree = Tree::new();
    tree.insert(
        String::from("root"),
        Ok(vec![file("root", "c"), file("root", "a"), file("root", "b")]),
    );
    let (asked, _) = find(&tree, "", FileType::All, false, false);
    assert_eq!(reports(&asked), pairs(&[("root", "c"), ("root", "a"), ("root", "b")]));
}

#[test]
fn same_run_twice_reports_the_same() {
    for recursive in [false, true] {
        let first = find(&sample(), "t", FileType::All, recursive, true);
        let second = find(&sample(), "t", FileType::All, recursive, true);
        assert_eq!(first, second);
    }
}

#[test]
fn other_listing_order_reports_the_same_set() {
    let mut turned = sample();
    for listing in turned.values_mut() {
        if let Ok(entries) = listing {
            entries.reverse();
        }
    }
    let (first, _) = find(&sample(), "", FileType::All, true, true);
    let (second, _) = find(&turned, "", FileType::All, true, true);
    let mut first = reports(&first);
    let mut second = reports(&second);
    assert_ne!(first, second);
    first.sort();
    second.sort();
    assert_eq!(first, second);
}

#[test]
fn finished_walk_stays_finished() {
    let pattern = Pattern::new("").unwrap();
    let filter = compare_func(&pattern, FileType::All);
    let mut walker = Walker::new(String::from("root"), false, false);
    let _: Action<String, String> = walk(&mut walker, Event::Resume, &filter);
    let listed = Event::Listed { path: String::from("root"), outcome: Ok(Vec::new()) };
    let end: Action<String, String> = walk(&mut walker, listed, &filter);
    assert!(matches!(end, Action::Finished(Ok(()))));
    let again: Action<String, String> = walk(&mut walker, Event::Resume, &filter);
    assert!(matches!(again, Action::Finished(Ok(()))));
}
