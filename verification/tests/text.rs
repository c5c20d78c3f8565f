use rip::text::{contains_text, holds_char, push_decimal, split, to_chars};

#[test]
fn to_chars_keeps_every_character() {
    assert_eq!(to_chars("a/b"), vec!['a', '/', 'b']);
    assert_eq!(to_chars("é~"), vec!['é', '~']);
    assert!(to_chars("").is_empty());
}

#[test]
fn push_decimal_appends_the_numeral() {
    let mut s = String::from("x~");
    push_decimal(&mut s, 0);
    assert_eq!(s, "x~0");
    push_decimal(&mut s, 7);
    push_decimal(&mut s, 10);
    push_decimal(&mut s, 1234567890);
    assert_eq!(s, "x~07101234567890");
    let mut t = String::new();
    push_decimal(&mut t, u128::MAX);
    assert_eq!(t, "340282366920938463463374607431768211455");
}

#[test]
fn split_keeps_empty_pieces() {
    let v: Vec<char> = "a\tb\t\tc".chars().collect();
    assert_eq!(split(&v, '\t'), vec!["a", "b", "", "c"]);
    let e: Vec<char> = Vec::new();
    assert_eq!(split(&e, '\t'), vec![""]);
    let t: Vec<char> = "\t".chars().collect();
    assert_eq!(split(&t, '\t'), vec!["", ""]);
    let n: Vec<char> = "no separator".chars().collect();
    assert_eq!(split(&n, '\t'), vec!["no separator"]);
}

#[test]
fn holds_char_and_contains_text_search() {
    assert!(holds_char("a\tb", '\t'));
    assert!(!holds_char("a b", '\t'));
    assert!(!holds_char("", 'a'));
    let list = vec!["/g/a".to_string(), "/g/b".to_string()];
    assert!(contains_text(&list, &"/g/b".to_string()));
    assert!(!contains_text(&list, &"/g/".to_string()));
    assert!(!contains_text(&Vec::new(), &"".to_string()));
}
