use webserver::headers::Headers;
use webserver::text::{
    chars_of, contains_exec, decimal_exec, find_from, join_exec, occurs_at_exec, replace_exec,
    same, split_exec, split_terminator_exec,
};

#[test]
fn chars_of_keeps_every_character() {
    assert_eq!(chars_of("aé\r\n"), vec!['a', 'é', '\r', '\n']);
    assert_eq!(chars_of(""), Vec::<char>::new());
}

#[test]
fn same_compares_by_characters() {
    assert!(same("abc", "abc"));
    assert!(same("", ""));
    assert!(!same("abc", "abd"));
    assert!(!same("abc", "ab"));
}

#[test]
fn find_gives_the_leftmost_place() {
    let s = chars_of("abcabc");
    assert_eq!(find_from(&s, &chars_of("bc"), 0), Some(1));
    assert_eq!(find_from(&s, &chars_of("bc"), 2), Some(4));
    assert_eq!(find_from(&s, &chars_of("bc"), 5), None);
    assert_eq!(find_from(&s, &chars_of("x"), 0), None);
    assert_eq!(find_from(&s, &chars_of(""), 6), Some(6));
    assert!(occurs_at_exec(&s, &chars_of("abc"), 3));
    assert!(!occurs_at_exec(&s, &chars_of("abc"), 4));
    assert!(contains_exec("Key: value", ": "));
    assert!(!contains_exec("Key:value", ": "));
}

#[test]
fn split_agrees_with_the_standard_library() {
    let cases = [
        ("", " "),
        (" ", " "),
        ("a b", " "),
        ("a b ", " "),
        ("a  b", " "),
        (" a", " "),
        ("a\r\nb\r\n\r\n", "\r\n"),
        ("\r\n", "\r\n"),
        ("aaa", "aa"),
        ("k: : ", ": "),
        ("é: ü", ": "),
    ];
    for (s, pat) in cases {
        assert_eq!(split_exec(s, pat), s.split(pat).collect::<Vec<&str>>());
        assert_eq!(
            split_terminator_exec(s, pat),
            s.split_terminator(pat).collect::<Vec<&str>>()
        );
    }
}

#[test]
fn split_terminator_drops_one_empty_piece_at_the_end() {
    assert_eq!(split_terminator_exec("a b ", " "), vec!["a", "b"]);
    assert_eq!(split_terminator_exec("a b  ", " "), vec!["a", "b", ""]);
    assert_eq!(split_terminator_exec("", " "), Vec::<&str>::new());
}

#[test]
fn join_puts_the_separator_between() {
    let parts = vec!["k", "a", "b"];
    assert_eq!(join_exec(&parts, 0, ": "), "k: a: b");
    assert_eq!(join_exec(&parts, 1, ": "), "a: b");
    assert_eq!(join_exec(&parts, 2, ": "), "b");
    assert_eq!(join_exec(&parts, 3, ": "), "");
}

#[test]
fn replace_agrees_with_the_standard_library() {
    let cases = [
        ("<h1>{CODE}</h1> {CODE}", "{CODE}", "404"),
        ("no place", "{CODE}", "404"),
        ("{X}", "{X}", ""),
        ("aaaa", "aa", "a"),
        ("{A}{A}", "{A}", "{A}{A}"),
    ];
    for (s, pat, to) in cases {
        assert_eq!(replace_exec(s, pat, to), s.replace(pat, to));
    }
}

#[test]
fn decimal_writes_numbers() {
    assert_eq!(decimal_exec(0), "0");
    assert_eq!(decimal_exec(7), "7");
    assert_eq!(decimal_exec(10), "10");
    assert_eq!(decimal_exec(404), "404");
    assert_eq!(decimal_exec(1234567890), "1234567890");
    assert_eq!(decimal_exec(usize::MAX), format!("{}", usize::MAX));
}

#[test]
fn headers_keep_first_place_and_last_value() {
    let mut h = Headers::new();
    assert_eq!(h.len(), 0);
    assert_eq!(h.get("a"), None);
    h.insert("a".to_string(), "1".to_string());
    h.insert("b".to_string(), "2".to_string());
    h.insert("a".to_string(), "3".to_string());
    assert_eq!(h.len(), 2);
    assert_eq!(h.name_at(0), "a");
    assert_eq!(h.value_at(0), "3");
    assert_eq!(h.name_at(1), "b");
    assert_eq!(h.value_at(1), "2");
    assert_eq!(h.get("a"), Some("3"));
    assert_eq!(h.get("b"), Some("2"));
    assert_eq!(h.get("A"), None);
}
