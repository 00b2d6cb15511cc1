use ferrisbot::text::{
    chars_of, eq_ignore_ascii_case_exec, find_in, line_ranges, parse_u64, push_decimal,
    push_signed_decimal, rfind_in, same_chars, string_of_range, trim_bounds, truncate_bytes,
    utf8_width,
};

#[test]
fn parse_u64_as_std_does() {
    for s in ["0", "123", "+5", "007", "18446744073709551615", "", "+", "-1", "12a", " 1", "18446744073709551616", "99999999999999999999"] {
        assert_eq!(parse_u64(s), s.parse::<u64>().ok(), "input {s:?}");
    }
}

#[test]
fn decimals_round_trip() {
    for n in [0u64, 7, 10, 4_294_967_296, u64::MAX] {
        let mut s = String::new();
        push_decimal(&mut s, n);
        assert_eq!(s, n.to_string());
        assert_eq!(parse_u64(&s), Some(n));
    }
    for n in [0i64, -1, 42, i64::MIN, i64::MAX] {
        let mut s = String::from("x");
        push_signed_decimal(&mut s, n);
        assert_eq!(s, format!("x{n}"));
    }
}

#[test]
fn truncation_keeps_whole_characters() {
    assert_eq!(truncate_bytes("hello", 10), "hello");
    assert_eq!(truncate_bytes("hello", 3), "hel");
    assert_eq!(truncate_bytes("héllo", 3), "hé");
    assert_eq!(truncate_bytes("", 0), "");
    let mut std_truncated = String::from("a€b");
    std_truncated.truncate(4);
    assert_eq!(truncate_bytes("a€b", 4), std_truncated);
}

#[test]
fn utf8_widths() {
    for c in ['a', 'é', '€', '🦀'] {
        assert_eq!(utf8_width(c), c.len_utf8());
    }
}

#[test]
fn searching_in_ranges() {
    let cs = chars_of("abcabc");
    assert_eq!(find_in(&cs, 0, 6, &chars_of("bc")), Some(1));
    assert_eq!(find_in(&cs, 2, 6, &chars_of("bc")), Some(2));
    assert_eq!(rfind_in(&cs, 0, 6, &chars_of("bc")), Some(4));
    assert_eq!(rfind_in(&cs, 0, 4, &chars_of("bc")), Some(1));
    assert_eq!(find_in(&cs, 0, 6, &chars_of("x")), None);
    assert_eq!(string_of_range(&cs, 1, 4), "bca");
}

#[test]
fn trimming_and_lines() {
    let cs = chars_of("  a b \n");
    assert_eq!(trim_bounds(&cs, 0, cs.len()), (2, 5));
    let text = "one\r\ntwo\n\nthree";
    let cs = chars_of(text);
    let ranges = line_ranges(&cs, 0, cs.len());
    let lines: Vec<String> = ranges.iter().map(|&(a, b)| string_of_range(&cs, a, b)).collect();
    let std_lines: Vec<&str> = text.lines().collect();
    assert_eq!(lines, std_lines);
}

#[test]
fn comparing_characters() {
    assert!(same_chars(&chars_of("abc"), &chars_of("abc")));
    assert!(!same_chars(&chars_of("abc"), &chars_of("abd")));
    assert!(eq_ignore_ascii_case_exec(&chars_of("New Thread"), &chars_of("nEW tHREAD")));
    assert!(!eq_ignore_ascii_case_exec(&chars_of("É"), &chars_of("é")));
    assert!(!eq_ignore_ascii_case_exec(&chars_of("ab"), &chars_of("abc")));
}
