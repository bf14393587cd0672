use canvas_dump::numbers::{i32_text, parse_i32};
use canvas_dump::text::{
    concat3, contains_str, ends_with_str, extract_number_after, replace_char_str, split_str,
    str_chars,
};

#[test]
fn extract_number_after_takes_segment_up_to_slash() {
    let url = "https://host/courses/55/files/1234/download?x=1";
    assert_eq!(extract_number_after(url, "/files/"), Some("1234"));
    assert_eq!(extract_number_after(url, "/courses/"), Some("55"));
}

#[test]
fn extract_number_after_takes_rest_without_slash() {
    assert_eq!(extract_number_after("a/files/77", "/files/"), Some("77"));
    assert_eq!(extract_number_after("a/files/", "/files/"), Some(""));
}

#[test]
fn extract_number_after_missing_pattern() {
    assert_eq!(extract_number_after("https://host/pages/intro", "/files/"), None);
}

#[test]
fn extract_number_after_uses_first_occurrence() {
    assert_eq!(extract_number_after("/files/1/files/2", "/files/"), Some("1"));
}

#[test]
fn extract_number_after_empty_pattern() {
    assert_eq!(extract_number_after("abc/def", ""), Some("abc"));
}

#[test]
fn extract_number_after_non_ascii() {
    assert_eq!(extract_number_after("héé/files/ü9/x", "/files/"), Some("ü9"));
}

#[test]
fn parse_i32_accepts_what_std_accepts() {
    for s in ["0", "42", "-7", "+3", "007", "2147483647", "-2147483648"] {
        assert_eq!(parse_i32(s), s.parse::<i32>().ok(), "{}", s);
    }
    assert_eq!(parse_i32("42"), Some(42));
    assert_eq!(parse_i32("+3"), Some(3));
    assert_eq!(parse_i32("-2147483648"), Some(i32::MIN));
}

#[test]
fn parse_i32_rejects_what_std_rejects() {
    for s in ["", "-", "+", "2147483648", "-2147483649", "12a", " 1", "1 ", "ID1: 5", "99999999999999999999", "--1", "١"] {
        assert_eq!(parse_i32(s), None, "{}", s);
        assert!(s.parse::<i32>().is_err(), "{}", s);
    }
}

#[test]
fn i32_text_reads_back() {
    for n in [0, 1, 9, 10, 99, 100, -1, -10, 123456, i32::MAX, i32::MIN] {
        let t = i32_text(n);
        assert_eq!(t, n.to_string());
        assert_eq!(parse_i32(&t), Some(n));
    }
}

#[test]
fn split_matches_std_split() {
    for (s, p) in [("a, b, c", ", "), ("ID1: 1, ID2: 2, Path: x, y", ", "), ("", ", "), (", ", ", "), ("abc", "b")] {
        let expected: Vec<String> = s.split(p).map(|x| x.to_string()).collect();
        assert_eq!(split_str(s, p), expected);
    }
}

#[test]
fn replace_char_matches_std_replace() {
    assert_eq!(replace_char_str("a b  c", ' ', "_"), "a_b__c");
    assert_eq!(replace_char_str("a,b,,c", ',', ""), "abc");
    assert_eq!(replace_char_str("", ',', "x"), "");
}

#[test]
fn small_text_helpers() {
    assert!(contains_str("https://x/assignments/3", "/assignments/"));
    assert!(!contains_str("https://x/assignment/3", "/assignments/"));
    assert!(ends_with_str("a.lnk", ".lnk"));
    assert!(!ends_with_str("lnk", ".lnk"));
    assert_eq!(concat3("a", "bc", ""), "abc");
    assert_eq!(str_chars("hé"), vec!['h', 'é']);
}
