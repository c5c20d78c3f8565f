use rip::path::{join, path_starts_with, rebase, split_names};

fn chars(s: &str) -> Vec<char> {
    s.chars().collect()
}

#[test]
fn split_names_gives_the_runs_between_separators() {
    assert_eq!(split_names(&chars("/tmp/graveyard/x.txt")), vec!["tmp", "graveyard", "x.txt"]);
    assert_eq!(split_names(&chars("a//b/")), vec!["a", "b"]);
    assert_eq!(split_names(&chars("rel/./..")), vec!["rel", ".", ".."]);
    assert!(split_names(&chars("")).is_empty());
    assert!(split_names(&chars("///")).is_empty());
}

#[test]
fn a_path_starts_with_itself_and_with_what_is_above_it() {
    assert!(path_starts_with("/tmp/graveyard", "/tmp/graveyard"));
    assert!(path_starts_with("/tmp/graveyard/home/u/x", "/tmp/graveyard"));
    assert!(path_starts_with("/tmp/graveyard/home/u/x", "/"));
    assert!(path_starts_with("/tmp/graveyard/", "/tmp/graveyard"));
    assert!(path_starts_with("/tmp//graveyard/x", "/tmp/graveyard/"));
    assert!(path_starts_with("a/b", "a"));
}

#[test]
fn a_path_does_not_start_with_a_part_of_a_name() {
    assert!(!path_starts_with("/tmp/graveyard-alice/x", "/tmp/graveyard"));
    assert!(!path_starts_with("/tmp/grave", "/tmp/graveyard"));
    assert!(!path_starts_with("/tmp", "/tmp/graveyard"));
    assert!(!path_starts_with("/home/u/x", "/tmp/graveyard"));
}

#[test]
fn absolute_and_relative_paths_are_kept_apart() {
    assert!(!path_starts_with("/a/b", "a"));
    assert!(!path_starts_with("a/b", "/a"));
    assert!(!path_starts_with("a/b", "/"));
}

#[test]
fn every_path_starts_with_the_empty_path() {
    assert!(path_starts_with("/a/b", ""));
    assert!(path_starts_with("a", ""));
    assert!(path_starts_with("", ""));
    assert!(!path_starts_with("", "a"));
    assert!(!path_starts_with("", "/"));
}

#[test]
fn join_puts_one_separator_between() {
    assert_eq!(join("/g", "x"), "/g/x");
    assert_eq!(join("/g/", "x"), "/g/x");
    assert_eq!(join("", "x"), "x");
    assert_eq!(join("/g", ""), "/g/");
    assert_eq!(join("/", "x"), "/x");
}

#[test]
fn rebase_mirrors_a_path_below_the_destination() {
    assert_eq!(rebase("/src/tree/a/b.txt", "/src/tree", "/g/src/tree"), Some("/g/src/tree/a/b.txt".to_string()));
    assert_eq!(rebase("/src/tree", "/src/tree", "/g/src/tree"), Some("/g/src/tree".to_string()));
    assert_eq!(rebase("/src/tree/", "/src/tree", "/g/t~1"), Some("/g/t~1".to_string()));
    assert_eq!(rebase("/src//tree/a", "/src/tree/", "/g/"), Some("/g/a".to_string()));
    assert_eq!(rebase("rel/a", "rel", "/g/rel"), Some("/g/rel/a".to_string()));
}

#[test]
fn rebase_refuses_a_path_that_is_not_below_the_source() {
    assert_eq!(rebase("/src/other/a", "/src/tree", "/g"), None);
    assert_eq!(rebase("/src/tree2", "/src/tree", "/g"), None);
    assert_eq!(rebase("src/tree/a", "/src/tree", "/g"), None);
}

#[test]
fn rebase_there_and_back_gives_the_path_again() {
    let there = rebase("/home/u/dir/sub/file", "/home/u/dir", "/tmp/graveyard/home/u/dir~2").unwrap();
    assert_eq!(there, "/tmp/graveyard/home/u/dir~2/sub/file");
    let back = rebase(&there, "/tmp/graveyard/home/u/dir~2", "/home/u/dir").unwrap();
    assert_eq!(back, "/home/u/dir/sub/file");
}
