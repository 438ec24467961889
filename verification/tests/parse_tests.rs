use gcd::collect_numbers;
use gcd::parse_u64;

#[test]
fn parse_plain_numbers() {
    assert_eq!(parse_u64("0"), Some(0));
    assert_eq!(parse_u64("14"), Some(14));
    assert_eq!(parse_u64("2431"), Some(2431));
    assert_eq!(parse_u64("007"), Some(7));
}

#[test]
fn parse_u64_bounds() {
    assert_eq!(parse_u64("18446744073709551615"), Some(u64::MAX));
    assert_eq!(parse_u64("18446744073709551616"), None);
    assert_eq!(parse_u64("99999999999999999999999"), None);
}

#[test]
fn parse_rejects_non_numerals() {
    assert_eq!(parse_u64(""), None);
    assert_eq!(parse_u64("abc"), None);
    assert_eq!(parse_u64("12a"), None);
    assert_eq!(parse_u64("-5"), None);
    assert_eq!(parse_u64("+5"), None);
    assert_eq!(parse_u64(" 5"), None);
    assert_eq!(parse_u64("1.5"), None);
    assert_eq!(parse_u64("\u{0664}\u{0662}"), None);
}

#[test]
fn collect_parses_all_arguments_in_order() {
    let args = vec!["14".to_string(), "15".to_string()];
    assert_eq!(collect_numbers(&args), Some(vec![14, 15]));

    let args = vec!["330".to_string(), "2431".to_string()];
    assert_eq!(collect_numbers(&args), Some(vec![330, 2431]));
}

#[test]
fn collect_of_no_arguments_is_empty() {
    let args: Vec<String> = Vec::new();
    assert_eq!(collect_numbers(&args), Some(Vec::new()));
}

#[test]
fn collect_fails_on_first_bad_argument() {
    let args = vec!["12".to_string(), "abc".to_string()];
    assert_eq!(collect_numbers(&args), None);

    let args = vec!["abc".to_string(), "12".to_string()];
    assert_eq!(collect_numbers(&args), None);
}

#[test]
fn collect_accepts_zero() {
    let args = vec!["0".to_string(), "5".to_string()];
    assert_eq!(collect_numbers(&args), Some(vec![0, 5]));
}
