use csvstar::number::{decimal_string, parse_i32, parse_usize, push_signed_decimal};
use csvstar::text::{chars_of, join, str_equal, str_less, string_of, trim};

#[test]
fn parse_i32_reads_signed_decimal_numbers() {
    assert_eq!(parse_i32("0"), Some(0));
    assert_eq!(parse_i32("12"), Some(12));
    assert_eq!(parse_i32("+12"), Some(12));
    assert_eq!(parse_i32("-12"), Some(-12));
    assert_eq!(parse_i32("-0"), Some(0));
    assert_eq!(parse_i32("0012"), Some(12));
    assert_eq!(parse_i32("2147483647"), Some(i32::MAX));
    assert_eq!(parse_i32("-2147483648"), Some(i32::MIN));
    assert_eq!(parse_i32("2147483648"), None);
    assert_eq!(parse_i32("-2147483649"), None);
    assert_eq!(parse_i32("99999999999999999999999"), None);
    assert_eq!(parse_i32(""), None);
    assert_eq!(parse_i32("+"), None);
    assert_eq!(parse_i32("-"), None);
    assert_eq!(parse_i32("--1"), None);
    assert_eq!(parse_i32("+-1"), None);
    assert_eq!(parse_i32(" 1"), None);
    assert_eq!(parse_i32("1 "), None);
    assert_eq!(parse_i32("1_000"), None);
    assert_eq!(parse_i32("1.0"), None);
    assert_eq!(parse_i32("1e3"), None);
    assert_eq!(parse_i32("a"), None);
    assert_eq!(parse_i32("\u{0661}"), None);
}

#[test]
fn parse_i32_agrees_with_the_standard_parser() {
    let samples = [
        "0", "7", "-7", "+7", "007", "-007", "2147483647", "2147483648", "-2147483648",
        "-2147483649", "", "+", "-", "1-2", "abc", "12a", "a12", " 12", "12 ", "+-3", "４",
    ];
    for s in samples {
        assert_eq!(parse_i32(s), s.parse::<i32>().ok(), "{:?}", s);
        assert_eq!(parse_usize(s), s.parse::<usize>().ok(), "{:?}", s);
    }
}

#[test]
fn parse_usize_reads_unsigned_decimal_numbers() {
    assert_eq!(parse_usize("0"), Some(0));
    assert_eq!(parse_usize("42"), Some(42));
    assert_eq!(parse_usize("+42"), Some(42));
    assert_eq!(parse_usize("-42"), None);
    assert_eq!(parse_usize("-0"), None);
    assert_eq!(parse_usize(&usize::MAX.to_string()), Some(usize::MAX));
    assert_eq!(parse_usize("340282366920938463463374607431768211456"), None);
    assert_eq!(parse_usize(""), None);
}

#[test]
fn decimal_string_writes_what_parse_reads() {
    assert_eq!(decimal_string(0), "0");
    assert_eq!(decimal_string(7), "7");
    assert_eq!(decimal_string(10), "10");
    assert_eq!(decimal_string(1234567890), "1234567890");
    assert_eq!(decimal_string(u64::MAX), "18446744073709551615");
    for n in [0usize, 1, 9, 10, 99, 100, 65535, 4294967295] {
        assert_eq!(parse_usize(&decimal_string(n as u64)), Some(n));
    }
    let mut s = String::from("k=");
    push_signed_decimal(&mut s, -45);
    push_signed_decimal(&mut s, 0);
    push_signed_decimal(&mut s, i64::MIN);
    assert_eq!(s, "k=-450-9223372036854775808");
    for k in [i32::MIN, -10, -1, 0, 1, 10, i32::MAX] {
        let mut text = String::new();
        push_signed_decimal(&mut text, k as i64);
        assert_eq!(text, k.to_string());
        assert_eq!(parse_i32(&text), Some(k));
    }
}

#[test]
fn trim_removes_white_space_at_both_ends() {
    assert_eq!(trim("  a b \t\n"), "a b");
    assert_eq!(trim("a"), "a");
    assert_eq!(trim(""), "");
    assert_eq!(trim("   "), "");
    assert_eq!(trim("\u{a0}x\u{3000}"), "x");
    assert_eq!(trim(" é "), "é");
    for s in ["", " ", "x", " x", "x ", " x y ", "\r\n x", "\u{2003}z\u{2003}"] {
        assert_eq!(trim(s), s.trim());
    }
}

#[test]
fn chars_and_strings_convert_both_ways() {
    let chars = chars_of("héllo");
    assert_eq!(chars, vec!['h', 'é', 'l', 'l', 'o']);
    assert_eq!(string_of(&chars, 1, 4), "éll");
    assert_eq!(string_of(&chars, 0, 5), "héllo");
    assert_eq!(string_of(&chars, 2, 2), "");
}

#[test]
fn join_puts_the_separator_between_parts() {
    let parts: Vec<String> = vec!["a".to_string(), "".to_string(), "c".to_string()];
    assert_eq!(join(&parts, ","), "a,,c");
    assert_eq!(join(&parts, " - "), "a -  - c");
    assert_eq!(join(&vec!["x".to_string()], ","), "x");
    assert_eq!(join(&vec![], ","), "");
}

#[test]
fn str_less_is_the_order_of_str() {
    let samples = ["", "a", "b", "ab", "aa", "A", "10", "9", "é", "z", "zz", "\u{10000}", "\u{ffff}"];
    for a in samples {
        for b in samples {
            assert_eq!(str_less(a, b), a < b, "{:?} < {:?}", a, b);
            assert_eq!(str_equal(a, b), a == b, "{:?} == {:?}", a, b);
        }
    }
    assert!(str_less("10", "9"));
    assert!(str_less("Zebra", "apple"));
    assert!(!str_less("same", "same"));
}

fn short_strings(alphabet: &[char], max_len: usize) -> Vec<String> {
    let mut all = vec![String::new()];
    let mut last = vec![String::new()];
    for _ in 0..max_len {
        let mut next = Vec::new();
        for s in &last {
            for c in alphabet {
                let mut t = s.clone();
                t.push(*c);
                next.push(t);
            }
        }
        all.extend(next.iter().cloned());
        last = next;
    }
    all
}

#[test]
fn numbers_are_read_as_the_standard_parser_reads_them() {
    for s in short_strings(&['0', '1', '9', '+', '-', ' ', 'a'], 4) {
        assert_eq!(parse_i32(&s), s.parse::<i32>().ok(), "{:?}", s);
        assert_eq!(parse_usize(&s), s.parse::<usize>().ok(), "{:?}", s);
    }
    for s in short_strings(&['2', '1', '4', '7', '8', '3', '6', '-'], 1) {
        let near = format!("{}214748364{}", if s == "-" { "-" } else { "" }, s.trim_matches('-'));
        assert_eq!(parse_i32(&near), near.parse::<i32>().ok(), "{:?}", near);
    }
}

#[test]
fn texts_are_ordered_and_trimmed_as_the_standard_library_does() {
    let all = short_strings(&['a', 'b', ' ', '\t', 'é', '\u{3000}'], 3);
    for a in &all {
        assert_eq!(trim(a), a.trim(), "{:?}", a);
    }
    let some = short_strings(&['a', 'b', 'é', '\u{10348}'], 2);
    for a in &some {
        for b in &some {
            assert_eq!(str_less(a, b), a < b, "{:?} < {:?}", a, b);
            assert_eq!(str_equal(a, b), a == b, "{:?} == {:?}", a, b);
        }
    }
}
