use card_receipt::decimal::{
    decimal, digit_of, group_thousands, parse_digits, parse_i32, parse_unsigned, push_decimal,
    push_padded, push_signed,
};

fn chars(s: &str) -> Vec<char> {
    s.chars().collect()
}

fn text(v: Vec<char>) -> String {
    v.into_iter().collect()
}

#[test]
fn numbers_in_decimal() {
    for n in [0u64, 7, 10, 99, 100, 1234567890, u64::MAX] {
        assert_eq!(text(decimal(n)), n.to_string());
    }
    assert_eq!(digit_of(0), '0');
    assert_eq!(digit_of(9), '9');
    let mut out = chars("n=");
    push_decimal(&mut out, 42);
    assert_eq!(text(out), "n=42");
}

#[test]
fn numbers_with_zeros_in_front() {
    let cases = [(0u64, 2usize, "00"), (7, 2, "07"), (12, 2, "12"), (123, 2, "123"),
        (5, 0, "5"), (1234, 10, "0000001234")];
    for (n, width, expected) in cases {
        let mut out = Vec::new();
        push_padded(&mut out, n, width);
        assert_eq!(text(out), expected);
    }
}

#[test]
fn numbers_with_a_sign() {
    for v in [0i32, 5, -5, 2026, i32::MAX, i32::MIN] {
        let mut out = Vec::new();
        push_signed(&mut out, v);
        assert_eq!(text(out), v.to_string());
    }
}

#[test]
fn reading_digits() {
    assert_eq!(parse_digits(&chars("123"), 0, 1000), Some(123));
    assert_eq!(parse_digits(&chars("x123"), 1, 123), Some(123));
    assert_eq!(parse_digits(&chars("123"), 0, 122), None);
    assert_eq!(parse_digits(&chars("123"), 3, 1000), None);
    assert_eq!(parse_digits(&chars("12a"), 0, 1000), None);
    assert_eq!(parse_digits(&chars("٣"), 0, 1000), None);
    assert_eq!(parse_digits(&chars("0000000000000000000000007"), 0, 7), Some(7));
}

#[test]
fn reading_i32_agrees_with_std() {
    for s in ["0", "26", "-26", "+26", "", "+", "-", "2147483647", "2147483648", "-2147483648",
        "-2147483649", "1a", " 1", "--1", "٣", "007", "-0"]
    {
        assert_eq!(parse_i32(&chars(s)), s.parse::<i32>().ok(), "{:?}", s);
    }
}

#[test]
fn reading_unsigned_agrees_with_std() {
    for s in ["0", "26", "-26", "+26", "", "+", "4294967295", "4294967296", "1a", "٣"] {
        assert_eq!(
            parse_unsigned(&chars(s), u32::MAX as u64),
            s.parse::<u32>().ok().map(|v| v as u64),
            "{:?}",
            s
        );
    }
    for s in ["18446744073709551615", "18446744073709551616", "+18446744073709551615"] {
        assert_eq!(parse_unsigned(&chars(s), u64::MAX), s.parse::<u64>().ok(), "{:?}", s);
    }
}

#[test]
fn grouping_by_thousands() {
    let cases = [("", ""), ("1", "1"), ("123", "123"), ("1234", "1,234"),
        ("123456", "123,456"), ("1234567", "1,234,567")];
    for (d, expected) in cases {
        assert_eq!(text(group_thousands(&chars(d))), expected);
    }
}
