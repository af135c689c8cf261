use stock_tags::search::{make_needle, matches_tag, matches_text};
use stock_tags::text::{chars_of, find_char, insert_sorted, split_ranges, trim, trim_range};

#[test]
fn trim_removes_unicode_white_space() {
    assert_eq!(trim("  a b \t\n"), "a b");
    assert_eq!(trim("\u{3000}银行\u{a0}"), "银行");
    assert_eq!(trim(""), "");
    assert_eq!(trim(" \t "), "");
    assert_eq!(trim("x"), "x");
}

#[test]
fn trim_range_stays_inside_its_bounds() {
    let v = chars_of(" a ; b  ");
    assert_eq!(trim_range(&v, 0, 3), (1, 2));
    assert_eq!(trim_range(&v, 4, 8), (5, 6));
    assert_eq!(trim_range(&v, 2, 3), (3, 3));
    assert_eq!(trim_range(&v, 1, 2), (1, 2));
    assert_eq!(trim_range(&v, 4, 4), (4, 4));
}

#[test]
fn chars_are_characters() {
    assert_eq!(chars_of("a银b"), vec!['a', '银', 'b']);
    assert!(chars_of("").is_empty());
}

#[test]
fn find_char_gives_the_first_or_the_end() {
    let v = chars_of("ab:cd:e");
    assert_eq!(find_char(&v, 0, 7, ':'), 2);
    assert_eq!(find_char(&v, 3, 7, ':'), 5);
    assert_eq!(find_char(&v, 0, 2, ':'), 2);
    assert_eq!(find_char(&v, 6, 7, ':'), 7);
}

#[test]
fn split_keeps_empty_pieces() {
    let v = chars_of("a;;bc;");
    assert_eq!(split_ranges(&v, ';'), vec![(0, 1), (2, 2), (3, 5), (6, 6)]);
    assert_eq!(split_ranges(&chars_of(""), ';'), vec![(0, 0)]);
    assert_eq!(split_ranges(&chars_of("abc"), ';'), vec![(0, 3)]);
}

#[test]
fn sorted_insert_keeps_order_and_skips_known_texts() {
    let mut list: Vec<String> = Vec::new();
    for t in ["m", "a", "z", "m", "B", "银", "a", ""] {
        insert_sorted(&mut list, &t.to_string());
    }
    assert_eq!(list, vec!["", "B", "a", "m", "z", "银"]);
}

#[test]
fn needle_is_lower_case_or_absent() {
    assert_eq!(make_needle(None), None);
    assert_eq!(make_needle(Some("")), None);
    assert_eq!(make_needle(Some("  ")), None);
    assert_eq!(make_needle(Some("ABC d")), Some("abc d".to_string()));
    assert_eq!(make_needle(Some(" X")), Some(" x".to_string()));
}

#[test]
fn matching_lower_cases_the_text() {
    assert!(matches_text("Hello World", "lo wo"));
    assert!(!matches_text("Hello World", "LO WO"));
    assert!(matches_text("anything", ""));
    assert!(!matches_text("abc", "abcd"));
    assert!(matches_tag("Name", None, "nam"));
    assert!(matches_tag("Name", Some("Detail"), "tail"));
    assert!(!matches_tag("Name", None, "tail"));
    assert!(!matches_tag("Name", Some("Detail"), "zzz"));
}
