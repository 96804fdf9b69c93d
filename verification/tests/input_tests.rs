use womir_analyze::document::summary_lines;
use womir_analyze::input::parse_words;
use womir_analyze::profile::summarize;
use womir_analyze::render::listing_path;
use womir_analyze::text::{decimal, join, same_text};

#[test]
fn words_are_read_in_order() {
    assert_eq!(parse_words("1,2,3"), vec![1, 2, 3]);
    assert_eq!(parse_words("10"), vec![10]);
    assert_eq!(parse_words("4294967295,0"), vec![u32::MAX, 0]);
    assert_eq!(parse_words("+7,007"), vec![7, 7]);
}

#[test]
fn malformed_tokens_are_dropped() {
    assert_eq!(parse_words(""), Vec::<u32>::new());
    assert_eq!(parse_words(","), Vec::<u32>::new());
    assert_eq!(parse_words("1,,2"), vec![1, 2]);
    assert_eq!(parse_words("1,x,2,"), vec![1, 2]);
    assert_eq!(parse_words(" 1,2 ,3"), vec![3]);
    assert_eq!(parse_words("-1,4294967296,5"), vec![5]);
    assert_eq!(parse_words("+,++1,1_0,0x1,é,9"), vec![9]);
}

#[test]
fn numbers_are_written_in_decimal() {
    assert_eq!(decimal(0), "0");
    assert_eq!(decimal(9), "9");
    assert_eq!(decimal(10), "10");
    assert_eq!(decimal(1234567890), "1234567890");
    assert_eq!(decimal(u128::MAX), u128::MAX.to_string());
}

#[test]
fn strings_compare_by_their_characters() {
    assert!(same_text("env", "env"));
    assert!(same_text("", ""));
    assert!(!same_text("env", "en"));
    assert!(!same_text("env", "enw"));
}

#[test]
fn summary_names_the_totals_and_the_range() {
    let report = summarize(&vec![0, 3, 0, 5, 0]);
    assert_eq!(
        summary_lines(&report),
        vec![
            "Histogram data: 2 data points, max count: 5, total instructions: 8",
            "PC range: 1 to 3",
        ]
    );
    let idle = summarize(&vec![0, 0]);
    assert_eq!(
        summary_lines(&idle),
        vec![
            "Histogram data: 0 data points, max count: 0, total instructions: 0",
            "PC range: 0 to 0",
        ]
    );
}

#[test]
fn listing_is_kept_under_the_program_name() {
    assert_eq!(listing_path("fib"), "target/analyze/fib.womir");
    assert_eq!(listing_path(""), "target/analyze/.womir");
}

#[test]
fn parts_are_joined_with_the_separator_between() {
    let parts = |list: &[&str]| list.iter().map(|p| p.to_string()).collect::<Vec<String>>();
    assert_eq!(join(&parts(&[]), ", "), "");
    assert_eq!(join(&parts(&["a"]), ", "), "a");
    assert_eq!(join(&parts(&["a", "b", "c"]), ", "), "a, b, c");
    assert_eq!(join(&parts(&["", ""]), "-"), "-");
}
