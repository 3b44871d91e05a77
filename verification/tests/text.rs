use meowverter::num::{fixed2_text, fixed3_text, i64_text, milli_text_of, parse_i32, parse_i64, parse_u64, u64_text};
use meowverter::text::{lines_of, replace_str, str_contains, str_ends_with, str_eq, to_lower, trimmed};

#[test]
fn numbers_as_text() {
    assert_eq!(u64_text(0), "0");
    assert_eq!(u64_text(18446744073709551615), "18446744073709551615");
    assert_eq!(i64_text(-42), "-42");
    assert_eq!(i64_text(i64::MIN), "-9223372036854775808");
    assert_eq!(fixed3_text(3000), "3.000");
    assert_eq!(fixed3_text(12), "0.012");
    // `{:.2}` of the double nearest to m / 1000: exact ties go to even, others by the
    // double's side of the tie
    assert_eq!(fixed2_text(1005), "1.00");
    assert_eq!(fixed2_text(1125), "1.12");
    assert_eq!(fixed2_text(1375), "1.38");
    assert_eq!(fixed2_text(1115), "1.11");
    assert_eq!(fixed2_text(1135), "1.14");
    assert_eq!(fixed2_text(0), "0.00");
    assert_eq!(fixed2_text(u64::MAX), format!("{:.2}", u64::MAX as f64 / 1000.0));
    for m in [1u64, 5, 15, 25, 995, 12345, 987_654_321, 4_503_599_627_370_497_005] {
        assert_eq!(fixed2_text(m), format!("{:.2}", m as f64 / 1000.0));
    }
    for m in [0u64, 1, 999, 1500, 2500, 3_000_000, 9_007_199_254_740_993_001, u64::MAX] {
        assert_eq!(fixed3_text(m), format!("{:.3}", m as f64 / 1000.0));
    }
    assert_eq!(fixed2_text(2004), "2.00");
    assert_eq!(milli_text_of(15000), "15");
    assert_eq!(milli_text_of(12500), "12.5");
    assert_eq!(milli_text_of(23976), "23.976");
    assert_eq!(milli_text_of(29970), "29.97");
}

#[test]
fn integer_parsing() {
    assert_eq!(parse_i32("480"), Some(480));
    assert_eq!(parse_i32("+7"), Some(7));
    assert_eq!(parse_i32("-2147483648"), Some(i32::MIN));
    assert_eq!(parse_i32("2147483648"), None);
    assert_eq!(parse_i32(" 1"), None);
    assert_eq!(parse_i32("-"), None);
    assert_eq!(parse_i32(""), None);
    assert_eq!(parse_i64("-9223372036854775808"), Some(i64::MIN));
    assert_eq!(parse_u64("18446744073709551615"), Some(u64::MAX));
    assert_eq!(parse_u64("18446744073709551616"), None);
    assert_eq!(parse_u64("-0"), None);
    assert_eq!(parse_u64("12a"), None);
    for s in ["0", "12", "+3", "-5", "99999999999", "x", ""] {
        assert_eq!(parse_i64(s), s.parse::<i64>().ok());
        assert_eq!(parse_u64(s), s.parse::<u64>().ok());
    }
}

#[test]
fn string_helpers() {
    assert!(str_eq("abc", "abc"));
    assert!(!str_eq("abc", "abd"));
    assert!(str_contains("https://www.deezer.com/track/1", "deezer.com"));
    assert!(!str_contains("abc", "abcd"));
    assert!(str_ends_with("x/bin/ffmpeg.exe", "/bin/ffmpeg.exe"));
    assert_eq!(replace_str("a&amp;b&amp;", "&amp;", "&"), "a&b&");
    assert_eq!(replace_str("aaa", "aa", "b"), "ba");
    assert_eq!(trimmed("\u{3000} hi \t\n"), "hi");
    assert_eq!(to_lower("MUSIC.Apple.COM"), "music.apple.com");
}

#[test]
fn lines_like_std() {
    for t in ["", "a", "a\n", "a\r\nb", "\n\nx\r", "one\ntwo\n\nthree\r\n"] {
        let want: Vec<String> = t.lines().map(|x| x.to_string()).collect();
        assert_eq!(lines_of(t), want, "{t:?}");
    }
}
