use nootnoot::number::{decimal_text, parse_interval_ms};
use nootnoot::text::{chars_of, commas_to_points, find, split_on, trim, whitespace};

#[test]
fn white_space_is_that_of_unicode() {
    for n in 0..=0x10ffffu32 {
        if let Some(c) = char::from_u32(n) {
            assert_eq!(whitespace(c), c.is_whitespace(), "{:x}", n);
        }
    }
}

#[test]
fn trimming_takes_both_ends() {
    for s in ["", " ", "a", " a", "a ", " a b ", "\t\n x\u{2003}y \u{85}", "  \u{3000} "] {
        assert_eq!(trim(s), s.trim());
    }
}

#[test]
fn splitting_keeps_empty_pieces() {
    for s in ["", ",", "a", "a,b", ",a,,b,", "\u{e9},\u{1f427}"] {
        assert_eq!(split_on(s, ','), s.split(',').collect::<Vec<&str>>());
    }
}

#[test]
fn finding_gives_the_first_position() {
    assert_eq!(find("abcabc", "bc"), Some(1));
    assert_eq!(find("\u{e9}\u{e9}time=time=", "time="), Some(2));
    assert_eq!(find("tim", "time="), None);
    assert_eq!(find("time", "time="), None);
    assert_eq!(find("aab", "ab"), Some(1));
    assert_eq!(find("abc", ""), Some(0));
    assert_eq!(find("", ""), Some(0));
    assert_eq!(find("", "a"), None);
}

#[test]
fn characters_and_commas() {
    assert_eq!(chars_of("a\u{e9}"), vec!['a', '\u{e9}']);
    assert_eq!(commas_to_points("1,5,\u{e9}"), "1.5.\u{e9}");
    assert_eq!(commas_to_points(""), "");
}

#[test]
fn bare_intervals_read_like_numbers() {
    for s in [
        "", "0", "7", "+7", "007", "+", "-", "-0", "-7", "1_0", " 1", "1 ", "0x1", "\u{661}",
        "18446744073709551615", "18446744073709551616", "99999999999999999999999",
        "00000000000000000000000000001",
    ] {
        assert_eq!(parse_interval_ms(s), s.parse::<u64>().ok(), "{}", s);
    }
}

#[test]
fn intervals_with_a_unit() {
    assert_eq!(parse_interval_ms("5s"), Some(5_000));
    assert_eq!(parse_interval_ms("1m"), Some(60_000));
    assert_eq!(parse_interval_ms("10s"), Some(10_000));
    assert_eq!(parse_interval_ms("0s"), Some(0));
    assert_eq!(parse_interval_ms("18446744073709551s"), Some(18_446_744_073_709_551_000));
    assert_eq!(parse_interval_ms("18446744073709552s"), None);
    assert_eq!(parse_interval_ms("307445734561825m"), Some(18_446_744_073_709_500_000));
    assert_eq!(parse_interval_ms("307445734561826m"), None);
    assert_eq!(parse_interval_ms("s"), None);
    assert_eq!(parse_interval_ms("m"), None);
    assert_eq!(parse_interval_ms("1ss"), None);
    assert_eq!(parse_interval_ms("1S"), None);
}

#[test]
fn decimal_text_reads_back() {
    for n in [0u64, 9, 10, 42, 1000, 18446744073709551615] {
        assert_eq!(decimal_text(n), n.to_string());
        assert_eq!(parse_interval_ms(&decimal_text(n)), Some(n));
    }
}
