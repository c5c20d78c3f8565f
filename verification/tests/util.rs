use rip::util::{humanize_bytes, is_yes, join_absolute, rename_grave};

#[test]
fn join_absolute_strips_the_root_of_the_right_path() {
    assert_eq!(join_absolute("/tmp/graveyard", "/home/u/x.txt"), "/tmp/graveyard/home/u/x.txt");
}

#[test]
fn join_absolute_keeps_a_relative_right_path() {
    assert_eq!(join_absolute("/tmp/graveyard", "x.txt"), "/tmp/graveyard/x.txt");
}

#[test]
fn join_absolute_adds_no_second_separator() {
    assert_eq!(join_absolute("/tmp/graveyard/", "/x"), "/tmp/graveyard/x");
    assert_eq!(join_absolute("/tmp/graveyard", "///x"), "/tmp/graveyard/x");
}

#[test]
fn join_absolute_with_an_empty_side() {
    assert_eq!(join_absolute("", "/x"), "x");
    assert_eq!(join_absolute("/g", "/"), "/g/");
    assert_eq!(join_absolute("/g", ""), "/g/");
    assert_eq!(join_absolute("", ""), "");
}

#[test]
fn rename_grave_takes_the_first_free_number() {
    let none: Vec<String> = Vec::new();
    assert_eq!(rename_grave("/g/x.txt", &none), "/g/x.txt~1");
    let one = vec!["/g/x.txt".to_string(), "/g/x.txt~1".to_string()];
    assert_eq!(rename_grave("/g/x.txt", &one), "/g/x.txt~2");
    let gap = vec!["/g/x.txt~1".to_string(), "/g/x.txt~3".to_string(), "/g/x.txt~2".to_string()];
    assert_eq!(rename_grave("/g/x.txt", &gap), "/g/x.txt~4");
}

#[test]
fn rename_grave_counts_past_nine() {
    let mut taken: Vec<String> = Vec::new();
    for i in 1..=11 {
        taken.push(format!("/g/a~{}", i));
    }
    assert_eq!(rename_grave("/g/a", &taken), "/g/a~12");
    taken.remove(9);
    assert_eq!(rename_grave("/g/a", &taken), "/g/a~10");
}

#[test]
fn humanize_bytes_picks_the_largest_unit_above_ten() {
    assert_eq!(humanize_bytes(0), "0 bytes");
    assert_eq!(humanize_bytes(10), "10 bytes");
    assert_eq!(humanize_bytes(11), "11 bytes");
    assert_eq!(humanize_bytes(10_999), "10999 bytes");
    assert_eq!(humanize_bytes(11_000), "11 KB");
    assert_eq!(humanize_bytes(10_999_999), "10999 KB");
    assert_eq!(humanize_bytes(500_000_000), "500 MB");
    assert_eq!(humanize_bytes(11_000_000_000), "11 GB");
    assert_eq!(humanize_bytes(11_000_000_000_000), "11 TB");
    assert_eq!(humanize_bytes(u64::MAX), "18446744 TB");
}

#[test]
fn is_yes_reads_the_first_character() {
    assert!(is_yes("y"));
    assert!(is_yes("Yes\n"));
    assert!(!is_yes(""));
    assert!(!is_yes("n"));
    assert!(!is_yes(" y"));
    assert!(!is_yes("\n"));
}
