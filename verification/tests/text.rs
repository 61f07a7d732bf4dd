use branch::text::{chars_of, decimal_chars, parse_usize, str_contains, trim_chars};

fn v(s: &str) -> Vec<char> {
    s.chars().collect()
}

#[test]
fn decimal_digits() {
    assert_eq!(decimal_chars(0), v("0"));
    assert_eq!(decimal_chars(1234567), v("1234567"));
}

#[test]
fn usize_parsing_matches_std() {
    for s in ["0", "42", "+7", "", "+", "-1", "1a", "18446744073709551615", "18446744073709551616", " 1"] {
        assert_eq!(parse_usize(&v(s)), s.parse::<usize>().ok(), "input {s:?}");
    }
}

#[test]
fn trimming_and_search() {
    assert_eq!(trim_chars(&v("\u{3000} a b\t\n")), v("a b"));
    assert!(str_contains("abc", ""));
    assert!(str_contains("error: not fully merged", "not fully merged"));
    assert!(!str_contains("merged", "not fully merged"));
    assert_eq!(chars_of("é!"), vec!['é', '!']);
}
