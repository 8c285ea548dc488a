use copycat::text::{decimal_string, first_chars, parse_trimmed_usize, parse_usize, truncate_chars, zero_padded_decimal};
use copycat::hash::fnv1a;
use copycat::clock::{format_ago, format_ago_at, format_elapsed, now_secs, secs_or_zero};

#[test]
fn fnv1a_known_values() {
    assert_eq!(fnv1a(b""), 0xcbf29ce484222325);
    assert_eq!(fnv1a(b"a"), 0xaf63dc4c8601ec8c);
    assert_eq!(fnv1a(b"foobar"), 0x85944171f73967e8);
}

#[test]
fn decimal_rendering() {
    assert_eq!(decimal_string(0), "0");
    assert_eq!(decimal_string(10), "10");
    assert_eq!(decimal_string(u64::MAX), u64::MAX.to_string());
    assert_eq!(zero_padded_decimal(42, 10), "0000000042");
    assert_eq!(zero_padded_decimal(42, 1), "42");
}

#[test]
fn parsing_matches_std() {
    for s in ["0", "+7", "100", "007", "", "+", "-1", "1a", " 5", "18446744073709551615", "18446744073709551616", "99999999999999999999"] {
        assert_eq!(parse_usize(s), s.parse::<usize>().ok(), "input {s:?}");
    }
}

#[test]
fn trimmed_parsing_matches_std() {
    for s in ["  12  ", "\t3\n", "\u{3000}8\u{2003}", " + 4", "", "   ", "5 5", "\u{85}9"] {
        assert_eq!(parse_trimmed_usize(s), s.trim().parse::<usize>().ok(), "input {s:?}");
    }
}

#[test]
fn parse_renders_back() {
    for n in [0usize, 1, 9, 10, 10_000, usize::MAX] {
        assert_eq!(parse_usize(&decimal_string(n as u64)), Some(n));
    }
}

#[test]
fn truncate_keeps_short_titles_on_one_line() {
    assert_eq!(truncate_chars("a\nb\rc", 10), "a b c");
    assert_eq!(truncate_chars("abcdef", 6), "abcdef");
    assert_eq!(truncate_chars("abcdefg", 6), "abcdef…");
    assert_eq!(truncate_chars("ёжик\nв тумане", 4), "ёжик…");
    assert_eq!(truncate_chars("", 0), "");
}

#[test]
fn first_chars_counts_characters() {
    assert_eq!(first_chars("привет", 3), "при");
    assert_eq!(first_chars("hi", 5), "hi");
}

#[test]
fn elapsed_labels() {
    assert_eq!(format_elapsed(0), "0 с назад");
    assert_eq!(format_elapsed(59), "59 с назад");
    assert_eq!(format_elapsed(60), "1 мин назад");
    assert_eq!(format_elapsed(3599), "59 мин назад");
    assert_eq!(format_elapsed(3600), "1 ч назад");
    assert_eq!(format_elapsed(86399), "23 ч назад");
    assert_eq!(format_elapsed(86400), "1 дн назад");
    assert_eq!(format_elapsed(10 * 86400 + 5), "10 дн назад");
}

#[test]
fn ago_counts_future_as_now() {
    assert_eq!(format_ago_at(100, 40), "1 мин назад");
    assert_eq!(format_ago_at(100, 200), "0 с назад");
}

#[test]
fn clock_reads_after_2020() {
    assert!(now_secs() > 1_577_836_800);
    assert_eq!(format_ago(now_secs() + 1000), "0 с назад");
}

#[test]
fn clock_before_epoch_reads_zero() {
    assert_eq!(secs_or_zero(None), 0);
    assert_eq!(secs_or_zero(Some(1_700_000_000)), 1_700_000_000);
}
