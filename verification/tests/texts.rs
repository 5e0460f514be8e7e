use pod_pool::decimal::{format_counter, read_counter};
use pod_pool::labels::Labels;
use pod_pool::selector::matches_selector;
use pod_pool::text::{chars_of, contains, is_space, trim_bounds};
use pod_pool::version::next_version;

fn labels_of(pairs: &[(&str, &str)]) -> Labels {
    let mut labels = Labels::new();
    for (key, value) in pairs {
        labels.insert(key.to_string(), value.to_string());
    }
    labels
}

fn trimmed(text: &str) -> String {
    let chars = chars_of(text);
    let (from, to) = trim_bounds(&chars, 0, chars.len());
    chars[from..to].iter().collect()
}

#[test]
fn characters_come_in_order() {
    assert_eq!(chars_of("a=\u{e9}"), vec!['a', '=', '\u{e9}']);
    assert_eq!(chars_of(""), Vec::<char>::new());
}

#[test]
fn white_space_is_what_unicode_says() {
    for code in 0u32..0x3100 {
        if let Some(c) = char::from_u32(code) {
            assert_eq!(is_space(c), c.is_whitespace(), "code point {:#x}", code);
        }
    }
    assert!(!is_space('\u{feff}'));
    assert!(!is_space('\u{10ffff}'));
}

#[test]
fn trimming_removes_surrounding_white_space_only() {
    assert_eq!(trimmed("  a b \t\n"), "a b");
    assert_eq!(trimmed("\u{a0}x\u{3000}"), "x");
    assert_eq!(trimmed("   "), "");
    assert_eq!(trimmed(""), "");
    assert_eq!(trimmed("abc"), "abc");
    for text in ["  a b \t\n", " \u{2003}k=v\r\n", "", " ", "x", "\u{85}y\u{1680}"] {
        assert_eq!(trimmed(text), text.trim());
    }
}

#[test]
fn trimming_a_window_stays_inside_it() {
    let chars = chars_of("ab , cd ,ef");
    assert_eq!(trim_bounds(&chars, 4, 8), (5, 7));
    assert_eq!(trim_bounds(&chars, 3, 8), (3, 7));
    assert_eq!(trim_bounds(&chars, 2, 3), (3, 3));
    assert_eq!(trim_bounds(&chars, 4, 4), (4, 4));
}

#[test]
fn substrings_are_found_wherever_they_stand() {
    assert!(contains("Resource version mismatch: expected 1, got 2", "version mismatch"));
    assert!(contains("conflict", "conflict"));
    assert!(contains("a conflict", "conflict"));
    assert!(contains("conflicts", "conflict"));
    assert!(contains("anything", ""));
    assert!(contains("", ""));
    assert!(!contains("", "x"));
    assert!(!contains("conflic", "conflict"));
    assert!(!contains("con flict", "conflict"));
    assert!(contains("aab", "ab"));
    assert!(contains("h\u{e9}llo", "\u{e9}l"));
    for (hay, needle) in [("abcabd", "abd"), ("aaa", "aaaa"), ("xyz", "z"), ("xyz", "zz")] {
        assert_eq!(contains(hay, needle), hay.contains(needle));
    }
}

#[test]
fn selector_pairs_must_all_hold() {
    let labels = labels_of(&[("app", "x"), ("status", "ready")]);
    assert!(matches_selector(&labels, "app=x,status=ready"));
    assert!(matches_selector(&labels, "status=ready,app=x"));
    assert!(matches_selector(&labels, "app=x"));
    assert!(!matches_selector(&labels, "app=x,status=busy"));
    assert!(!matches_selector(&labels, "app=y,status=ready"));
    assert!(!matches_selector(&labels, "tier=web"));
}

#[test]
fn selector_ignores_malformed_pairs() {
    let labels = labels_of(&[("app", "x")]);
    assert!(matches_selector(&labels, ""));
    assert!(matches_selector(&labels, "malformed"));
    assert!(matches_selector(&labels, "a=b=c"));
    assert!(matches_selector(&labels, ","));
    assert!(matches_selector(&labels, "app=x,"));
    assert!(matches_selector(&labels, ",app=x"));
    assert!(matches_selector(&labels, "malformed,app=x"));
    assert!(matches_selector(&labels, "app=x,a=b=c"));
    assert!(!matches_selector(&labels, "malformed,app=y"));
    assert!(matches_selector(&Labels::new(), "no pairs here"));
}

#[test]
fn selector_trims_keys_and_values() {
    let labels = labels_of(&[("app", "x"), ("status", "ready")]);
    assert!(matches_selector(&labels, " app = x , status=ready "));
    assert!(matches_selector(&labels, "\tapp=x\n"));
    assert!(!matches_selector(&labels, "app=x y"));
    // Label keys and values themselves are compared as they are.
    let spaced = labels_of(&[(" app", "x")]);
    assert!(!matches_selector(&spaced, "app=x"));
    assert!(!matches_selector(&spaced, " app=x"));
}

#[test]
fn selector_with_empty_key_or_value() {
    let labels = labels_of(&[("app", "")]);
    assert!(matches_selector(&labels, "app="));
    assert!(!matches_selector(&labels, "="));
    assert!(!matches_selector(&labels, "=x"));
    let empty_key = labels_of(&[("", "")]);
    assert!(matches_selector(&empty_key, "="));
    assert!(matches_selector(&empty_key, " = "));
}

#[test]
fn counters_are_read_as_decimal_numbers() {
    assert_eq!(read_counter("0"), Some(0));
    assert_eq!(read_counter("1"), Some(1));
    assert_eq!(read_counter("+17"), Some(17));
    assert_eq!(read_counter("007"), Some(7));
    assert_eq!(read_counter("18446744073709551615"), Some(u64::MAX));
    assert_eq!(read_counter("18446744073709551616"), None);
    assert_eq!(read_counter("99999999999999999999999999"), None);
    assert_eq!(read_counter(""), None);
    assert_eq!(read_counter("+"), None);
    assert_eq!(read_counter("++1"), None);
    assert_eq!(read_counter("-1"), None);
    assert_eq!(read_counter("1a"), None);
    assert_eq!(read_counter("\u{661}"), None);
    for text in ["0", "+17", "007", "18446744073709551615", "18446744073709551616", "", "+", "1 "] {
        assert_eq!(read_counter(text), text.parse::<u64>().ok());
    }
}

#[test]
fn counters_are_written_without_leading_zeros() {
    assert_eq!(format_counter(0), "0");
    assert_eq!(format_counter(9), "9");
    assert_eq!(format_counter(10), "10");
    assert_eq!(format_counter(1234567890), "1234567890");
    assert_eq!(format_counter(u64::MAX), "18446744073709551615");
    for n in [0u64, 7, 42, 100, 999, 1000, 65535, u64::MAX - 1] {
        assert_eq!(format_counter(n), n.to_string());
        assert_eq!(read_counter(&format_counter(n)), Some(n));
    }
}

#[test]
fn versions_move_on_by_one() {
    assert_eq!(next_version("1"), "2");
    assert_eq!(next_version("9"), "10");
    assert_eq!(next_version("099"), "100");
    assert_eq!(next_version("+5"), "6");
    assert_eq!(next_version("0"), "1");
    // What is no number counts as zero.
    assert_eq!(next_version(""), "1");
    assert_eq!(next_version("abc"), "1");
    assert_eq!(next_version("12x"), "1");
    assert_eq!(next_version("18446744073709551616"), "1");
    // After the largest number the counter starts over.
    assert_eq!(next_version("18446744073709551615"), "0");
    for version in ["1", "2", "", "abc", "0", "18446744073709551615", "1 "] {
        let next = next_version(version);
        assert_ne!(next, version);
        assert_ne!(next_version(&next), version);
    }
}
