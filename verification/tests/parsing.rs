use cpr::score::{parse_score, parse_score_line, score_div, Score};
use cpr::util::{decimal_string, fix_unix_filename, fix_unix_filename_vec, test_name_string};

fn micros(s: &str) -> Option<i64> {
    parse_score(s).map(|sc: Score| sc.micros)
}

#[test]
fn parses_plain_integers() {
    assert_eq!(micros("0"), Some(0));
    assert_eq!(micros("5"), Some(5_000_000));
    assert_eq!(micros("42"), Some(42_000_000));
    assert_eq!(micros("+2"), Some(2_000_000));
    assert_eq!(micros("-3"), Some(-3_000_000));
}

#[test]
fn parses_decimals() {
    assert_eq!(micros("5.0"), Some(5_000_000));
    assert_eq!(micros("7.5"), Some(7_500_000));
    assert_eq!(micros("-3.25"), Some(-3_250_000));
    assert_eq!(micros("0.000001"), Some(1));
    assert_eq!(micros("5."), Some(5_000_000));
    assert_eq!(micros(".5"), Some(500_000));
}

#[test]
fn ignores_digits_beyond_the_sixth_place() {
    assert_eq!(micros("0.1234567"), Some(123_456));
    assert_eq!(micros("1.9999999"), Some(1_999_999));
}

#[test]
fn rejects_malformed_input() {
    assert_eq!(micros(""), None);
    assert_eq!(micros("."), None);
    assert_eq!(micros("-"), None);
    assert_eq!(micros("1e9"), None);
    assert_eq!(micros("12a"), None);
    assert_eq!(micros("1.2.3"), None);
    assert_eq!(micros("inf"), None);
}

#[test]
fn enforces_the_score_bound() {
    assert_eq!(micros("1000000000"), Some(1_000_000_000_000_000));
    assert_eq!(micros("-1000000000"), Some(-1_000_000_000_000_000));
    assert_eq!(micros("1000000001"), None);
    assert_eq!(micros("1000000000.000001"), None);
    assert_eq!(micros("999999999.999999"), Some(999_999_999_999_999));
}

#[test]
fn trims_blanks_around_the_line() {
    assert_eq!(parse_score_line("  7.5 \n").map(|s| s.micros), Some(7_500_000));
    assert_eq!(parse_score_line("\t42\r\n").map(|s| s.micros), Some(42_000_000));
    assert_eq!(parse_score_line("   "), None);
}

#[test]
fn division_truncates_toward_zero() {
    assert_eq!(score_div(7, 2), 3);
    assert_eq!(score_div(-7, 2), -3);
    assert_eq!(score_div(10_000_000, 2), 5_000_000);
    assert_eq!(score_div(0, 5), 0);
}

#[test]
fn fixes_bare_command_names() {
    assert_eq!(fix_unix_filename("main"), "./main");
    assert_eq!(fix_unix_filename("./main"), "./main");
    assert_eq!(fix_unix_filename("a"), "./a");
}

#[test]
fn fixes_single_word_command_vectors_only() {
    let mut v = vec![String::from("scorer")];
    fix_unix_filename_vec(&mut v);
    assert_eq!(v, vec![String::from("./scorer")]);

    let mut w = vec![String::from("python3"), String::from("main.py")];
    fix_unix_filename_vec(&mut w);
    assert_eq!(w, vec![String::from("python3"), String::from("main.py")]);
}

#[test]
fn renders_decimal_and_test_names() {
    assert_eq!(decimal_string(0), "0");
    assert_eq!(decimal_string(7), "7");
    assert_eq!(decimal_string(65535), "65535");
    assert_eq!(test_name_string(1), "001");
    assert_eq!(test_name_string(42), "042");
    assert_eq!(test_name_string(123), "123");
    assert_eq!(test_name_string(1234), "1234");
}
