use hwctl::text::{i32_to_decimal, parse_i32, parse_u64, str_eq, str_starts_with, trim};

#[test]
fn trim_strips_surrounding_whitespace() {
    assert_eq!(trim("  QEMU HARDDISK \n"), "QEMU HARDDISK");
    assert_eq!(trim("\t\r\n 42 \u{a0}"), "42");
    assert_eq!(trim("plain"), "plain");
}

#[test]
fn trim_of_blank_input_is_empty() {
    assert_eq!(trim(""), "");
    assert_eq!(trim("   \n\t"), "");
}

#[test]
fn trim_keeps_inner_whitespace() {
    assert_eq!(trim(" a b "), "a b");
}

#[test]
fn parse_u64_accepts_plain_and_signed_digits() {
    assert_eq!(parse_u64("123"), Some(123));
    assert_eq!(parse_u64("+123"), Some(123));
    assert_eq!(parse_u64("0"), Some(0));
    assert_eq!(parse_u64("18446744073709551615"), Some(u64::MAX));
}

#[test]
fn parse_u64_rejects_junk_and_overflow() {
    assert_eq!(parse_u64(""), None);
    assert_eq!(parse_u64("+"), None);
    assert_eq!(parse_u64("-1"), None);
    assert_eq!(parse_u64("12a"), None);
    assert_eq!(parse_u64(" 12"), None);
    assert_eq!(parse_u64("18446744073709551616"), None);
}

#[test]
fn parse_u64_matches_std_parsing() {
    for s in ["007", "+0", "99999999999999999999", "5-5", "\u{660}7"] {
        assert_eq!(parse_u64(s), s.parse::<u64>().ok(), "input {:?}", s);
    }
}

#[test]
fn parse_i32_handles_signs_and_limits() {
    assert_eq!(parse_i32("42"), Some(42));
    assert_eq!(parse_i32("+42"), Some(42));
    assert_eq!(parse_i32("-42"), Some(-42));
    assert_eq!(parse_i32("-2147483648"), Some(i32::MIN));
    assert_eq!(parse_i32("2147483647"), Some(i32::MAX));
    assert_eq!(parse_i32("2147483648"), None);
    assert_eq!(parse_i32("-2147483649"), None);
    assert_eq!(parse_i32("--1"), None);
    assert_eq!(parse_i32(""), None);
}

#[test]
fn parse_i32_matches_std_parsing() {
    for s in ["-0", "+-3", "0009", "21474836470"] {
        assert_eq!(parse_i32(s), s.parse::<i32>().ok(), "input {:?}", s);
    }
}

#[test]
fn decimal_rendering_matches_std() {
    for n in [0, 7, -123, 4096, i32::MIN, i32::MAX] {
        assert_eq!(i32_to_decimal(n), n.to_string(), "value {}", n);
    }
}

#[test]
fn str_eq_compares_contents() {
    assert!(str_eq("backlight", "backlight"));
    assert!(!str_eq("backlight", "block"));
    assert!(!str_eq("a", "ab"));
}

#[test]
fn str_starts_with_checks_prefixes() {
    assert!(str_starts_with("sda1", "sda"));
    assert!(str_starts_with("sda", "sda"));
    assert!(!str_starts_with("sdb1", "sda"));
    assert!(!str_starts_with("sd", "sda"));
}
