use ypshuo_scraper::text::{comma_tags_exec, decimal_string, first_piece_str, replace_str, signed_decimal_string, str_eq, trim_str};
use ypshuo_scraper::{apply_author_filter, BookItem};

#[test]
fn trim_removes_unicode_white_space_only() {
    assert_eq!(trim_str("\u{3000}\t 书名 \u{a0}\n"), "书名");
    assert_eq!(trim_str("  "), "");
    assert_eq!(trim_str("a b"), "a b");
    assert_eq!(trim_str("\u{200b}x"), "\u{200b}x");
}

#[test]
fn trim_twice_same_as_once() {
    let once = trim_str("  \u{2003}x y\u{2028} ");
    assert_eq!(trim_str(once), once);
}

#[test]
fn replace_is_left_to_right_non_overlapping() {
    assert_eq!(replace_str("aaa", "aa", "b"), "ba");
    assert_eq!(replace_str("http://x http://y", "http://", "https://"), "https://x https://y");
    assert_eq!(replace_str("none", "zz", "y"), "none");
}

#[test]
fn comma_tags_trim_and_drop_empty() {
    assert_eq!(comma_tags_exec(" a ,b,, ,c"), vec!["a", "b", "c"]);
    assert!(comma_tags_exec("").is_empty());
    assert!(comma_tags_exec(" , ").is_empty());
}

#[test]
fn first_piece_cuts_at_first_pattern() {
    assert_eq!(first_piece_str("a丨b丨c", "丨"), "a");
    assert_eq!(first_piece_str("abc", "|"), "abc");
}

#[test]
fn decimals() {
    assert_eq!(decimal_string(0), "0");
    assert_eq!(decimal_string(4294967295), "4294967295");
    assert_eq!(signed_decimal_string(-2147483648), "-2147483648");
    assert_eq!(signed_decimal_string(i64::MIN), "-9223372036854775808");
    assert_eq!(signed_decimal_string(42), "42");
}

#[test]
fn string_equality() {
    assert!(str_eq("00", "00"));
    assert!(!str_eq("00", "0"));
    assert!(!str_eq("01", "00"));
}

fn book(id: &str, author: &str) -> BookItem {
    BookItem {
        id: id.to_string(),
        title: String::new(),
        author: author.to_string(),
        cover_url: None,
        intro: None,
        narrator: None,
        tags: vec![],
        chapter_count: None,
        duration: None,
    }
}

#[test]
fn author_filter_keeps_the_same_books() {
    let mut v = vec![book("1", "x"), book("2", "y"), book("3", "z"), book("4", "y")];
    apply_author_filter(&mut v, &Some("Y".to_string()));
    let mut got: Vec<&str> = v.iter().map(|b| b.id.as_str()).collect();
    assert_eq!(got, vec!["2", "1", "3", "4"]);
    got.sort();
    assert_eq!(got, vec!["1", "2", "3", "4"]);
}
