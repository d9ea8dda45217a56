use hpm::number::{parse_number, to_decimal, to_padded};
use hpm::order::{sort_pairs, sort_strings, sort_unique};
use hpm::pattern::{contains, cut_at_text, ends_with, replace, starts_with, trim_end_text, trim_start_text};
use hpm::text::{
    answer_is_yes, can_be_shortened, cut_at, first_bytes, is_one_letter, join_strings, longer_than,
    pad_right, shorten, split_class, split_lines, split_words, trim_class, trim_white, CharClass,
};

fn texts(v: &[&str]) -> Vec<String> {
    v.iter().map(|s| s.to_string()).collect()
}

#[test]
fn prefixes_and_suffixes() {
    assert!(starts_with("hpm run", "hpm"));
    assert!(!starts_with("hp", "hpm"));
    assert!(ends_with("tool.hpm", ".hpm"));
    assert!(contains("exec hpm run x", "hpm run "));
    assert!(!contains("exec hpm", "hpm run "));
}

#[test]
fn cutting_at_a_text() {
    assert_eq!(cut_at("a@b@c", '@'), Some(("a".to_string(), "b@c".to_string())));
    assert_eq!(cut_at("abc", '@'), None);
    assert_eq!(cut_at_text("key => value", "=>"), Some(("key ".to_string(), " value".to_string())));
}

#[test]
fn replacing_every_occurrence() {
    assert_eq!(replace("v{version}/t-{version}", "{version}", "1.0"), "v1.0/t-1.0");
    assert_eq!(replace("aaa", "aa", "b"), "ba");
}

#[test]
fn trimming_a_text_from_an_end() {
    assert_eq!(trim_end_text("repo.git.git", ".git"), "repo");
    assert_eq!(trim_start_text("vv1.0", "v"), "1.0");
}

#[test]
fn splitting_into_words_and_lines() {
    assert_eq!(split_words("  exec  hpm\trun "), texts(&["exec", "hpm", "run"]));
    assert_eq!(split_lines("a\nb\r\nc"), texts(&["a", "b", "c"]));
    assert_eq!(split_lines("a\n"), texts(&["a"]));
    assert_eq!(split_class("1.2.3", CharClass::Is('.')), texts(&["1", "2", "3"]));
    assert_eq!(join_strings(&texts(&["a", "b"]), ", "), "a, b");
}

#[test]
fn trimming_white_space() {
    assert_eq!(trim_white("  \u{a0}x y\n"), "x y");
    assert_eq!(trim_class("\"quoted\"", CharClass::Is('"')), "quoted");
}

#[test]
fn bytes_are_counted_not_characters() {
    assert!(!longer_than("ąą", 4));
    assert!(longer_than("ąą", 3));
    assert_eq!(first_bytes("ąb", 2), Some("ą".to_string()));
    assert_eq!(first_bytes("ąb", 1), None);
}

#[test]
fn shortening_a_text() {
    assert_eq!(shorten("short", 30, 29, "…"), "short");
    assert_eq!(shorten("0123456789", 5, 4, "…"), "0123…");
    assert!(!can_be_shortened("ąąą", 5, 3));
    assert!(can_be_shortened("ąąą", 5, 4));
}

#[test]
fn answers() {
    assert!(answer_is_yes("y\n"));
    assert!(answer_is_yes(" Y "));
    assert!(!answer_is_yes("yes\n"));
    assert!(!answer_is_yes("\n"));
    assert!(is_one_letter("n", 'n', 'N'));
    assert!(!is_one_letter("no", 'n', 'N'));
}

#[test]
fn padding() {
    assert_eq!(pad_right("ab", 4), "ab  ");
    assert_eq!(pad_right("abcde", 4), "abcde");
}

#[test]
fn numbers_go_to_text_and_back() {
    for n in [0u64, 7, 10, 4_294_967_295, u64::MAX] {
        assert_eq!(to_decimal(n), n.to_string());
        assert_eq!(parse_number(&to_decimal(n), u64::MAX), Some(n));
    }
    assert_eq!(to_padded(7, 2), "07");
    assert_eq!(to_padded(2024, 2), "2024");
}

#[test]
fn texts_that_are_no_numbers() {
    assert_eq!(parse_number("", u64::MAX), None);
    assert_eq!(parse_number("-1", u64::MAX), None);
    assert_eq!(parse_number("1a", u64::MAX), None);
    assert_eq!(parse_number("+5", u64::MAX), Some(5));
    assert_eq!(parse_number("256", 255), None);
    assert_eq!(parse_number("18446744073709551616", u64::MAX), None);
}

#[test]
fn sorting_texts() {
    assert_eq!(sort_strings(texts(&["b", "a", "b"])), texts(&["a", "b", "b"]));
    assert_eq!(sort_unique(texts(&["b", "a", "b"])), texts(&["a", "b"]));
    let pairs = vec![("b".to_string(), "1".to_string()), ("a".to_string(), "2".to_string())];
    assert_eq!(sort_pairs(&pairs)[0].0, "a");
}
