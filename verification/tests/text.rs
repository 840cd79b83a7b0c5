use vallis::numeral::{digit_of, read_decimal, read_fraction, read_integer, read_number};
use vallis::text::{chars_of, is_white_space, next_word, word_is};

fn chars(s: &str) -> Vec<char> {
    s.chars().collect()
}

fn integer(s: &str) -> Option<i32> {
    let text = chars(s);
    read_integer(&text, 0, text.len())
}

fn decimal(s: &str) -> Option<i64> {
    let text = chars(s);
    read_decimal(&text, 0, text.len())
}

fn fraction(s: &str) -> Option<u32> {
    let text = chars(s);
    read_fraction(&text, 0, text.len())
}

#[test]
fn chars_of_gives_every_character() {
    assert_eq!(chars_of(""), Vec::<char>::new());
    assert_eq!(chars_of("gap 5"), vec!['g', 'a', 'p', ' ', '5']);
    assert_eq!(chars_of("a\u{3000}\u{1F600}"), vec!['a', '\u{3000}', '\u{1F600}']);
}

#[test]
fn white_space_is_what_unicode_says() {
    for code in 0..=0x11_0000u32 {
        if let Some(c) = char::from_u32(code) {
            assert_eq!(is_white_space(c), c.is_whitespace(), "{code:#x}");
        }
    }
}

#[test]
fn next_word_gives_bounds() {
    let text = chars("  gap  +5 ");
    assert_eq!(next_word(&text, 0), (2, 5));
    assert_eq!(next_word(&text, 2), (2, 5));
    assert_eq!(next_word(&text, 3), (3, 5));
    assert_eq!(next_word(&text, 5), (7, 9));
    assert_eq!(next_word(&text, 9), (10, 10));
    assert_eq!(next_word(&text, 10), (10, 10));
    assert_eq!(next_word(&chars(""), 0), (0, 0));
    assert_eq!(next_word(&chars("word"), 0), (0, 4));
}

#[test]
fn word_is_compares_exactly() {
    let text = chars("layout tile");
    assert!(word_is(&text, 0, 6, "layout"));
    assert!(word_is(&text, 7, 11, "tile"));
    assert!(!word_is(&text, 0, 6, "layouts"));
    assert!(!word_is(&text, 0, 5, "layout"));
    assert!(!word_is(&text, 0, 6, "lay0ut"));
    assert!(word_is(&text, 3, 3, ""));
}

#[test]
fn digit_of_reads_ascii_digits_only() {
    assert_eq!(digit_of('0'), Some(0));
    assert_eq!(digit_of('9'), Some(9));
    assert_eq!(digit_of('/'), None);
    assert_eq!(digit_of(':'), None);
    assert_eq!(digit_of('a'), None);
    assert_eq!(digit_of('\u{0663}'), None);
}

#[test]
fn read_number_counts_up_to_its_limit() {
    let text = chars("x12345y");
    assert_eq!(read_number(&text, 1, 6, 1_000_000), Some(12345));
    assert_eq!(read_number(&text, 1, 6, 12345), Some(12345));
    assert_eq!(read_number(&text, 1, 6, 12344), Some(12344));
    assert_eq!(read_number(&text, 1, 6, 100), Some(100));
    assert_eq!(read_number(&text, 1, 1, 100), Some(0));
    assert_eq!(read_number(&text, 0, 6, 100), None);
    assert_eq!(read_number(&text, 1, 7, 100), None);
    let long = chars("99999999999999999999999999999999999999");
    assert_eq!(
        read_number(&long, 0, long.len(), 1_000_000_000_000_000),
        Some(1_000_000_000_000_000)
    );
}

#[test]
fn read_integer_takes_the_32_bit_range() {
    assert_eq!(integer("0"), Some(0));
    assert_eq!(integer("-0"), Some(0));
    assert_eq!(integer("+17"), Some(17));
    assert_eq!(integer("-17"), Some(-17));
    assert_eq!(integer("0042"), Some(42));
    assert_eq!(integer("2147483647"), Some(i32::MAX));
    assert_eq!(integer("-2147483648"), Some(i32::MIN));
    assert_eq!(integer("2147483648"), None);
    assert_eq!(integer("-2147483649"), None);
    assert_eq!(integer(""), None);
    assert_eq!(integer("+"), None);
    assert_eq!(integer("-"), None);
    assert_eq!(integer("1 "), None);
    assert_eq!(integer("+-1"), None);
}

#[test]
fn read_integer_agrees_with_the_standard_parser() {
    for s in [
        "0", "1", "-1", "+1", "12", "0012", "2147483647", "2147483648", "-2147483648",
        "-2147483649", "", "+", "-", "a", "1a", "a1", " 1", "1 ", "1.0", "--1", "99999999999",
    ] {
        assert_eq!(integer(s), s.parse::<i32>().ok(), "{s}");
    }
}

#[test]
fn read_fraction_reads_millionths() {
    assert_eq!(fraction(""), Some(0));
    assert_eq!(fraction("5"), Some(500_000));
    assert_eq!(fraction("05"), Some(50_000));
    assert_eq!(fraction("000001"), Some(1));
    assert_eq!(fraction("123456"), Some(123_456));
    assert_eq!(fraction("1234564"), Some(123_456));
    assert_eq!(fraction("1234565"), Some(123_457));
    assert_eq!(fraction("12345649999"), Some(123_456));
    assert_eq!(fraction("9999995"), Some(1_000_000));
    assert_eq!(fraction("99999949"), Some(999_999));
    assert_eq!(fraction("5a"), None);
    assert_eq!(fraction("1234567a"), None);
    assert_eq!(fraction("123456a"), None);
}

#[test]
fn read_decimal_reads_millionths() {
    assert_eq!(decimal("0"), Some(0));
    assert_eq!(decimal("1"), Some(1_000_000));
    assert_eq!(decimal("0.6"), Some(600_000));
    assert_eq!(decimal("+0.05"), Some(50_000));
    assert_eq!(decimal("-0.9"), Some(-900_000));
    assert_eq!(decimal(".5"), Some(500_000));
    assert_eq!(decimal("5."), Some(5_000_000));
    assert_eq!(decimal("-.000001"), Some(-1));
    assert_eq!(decimal("12.345678"), Some(12_345_678));
    assert_eq!(decimal("0.9999995"), Some(1_000_000));
    assert_eq!(decimal("-0.9999995"), Some(-1_000_000));
    assert_eq!(decimal("999999.999999"), Some(999_999_999_999));
    assert_eq!(decimal("999999.9999995"), Some(1_000_000_000_000));
}

#[test]
fn read_decimal_stops_at_its_limit() {
    assert_eq!(decimal("1000000"), Some(1_000_000_000_000));
    assert_eq!(decimal("1000000.5"), Some(1_000_000_000_000));
    assert_eq!(decimal("123456789012345678901234567890"), Some(1_000_000_000_000));
    assert_eq!(decimal("-123456789012345678901234567890.25"), Some(-1_000_000_000_000));
}

#[test]
fn read_decimal_refuses_what_is_no_decimal() {
    for s in [
        "", "+", "-", ".", "+.", "-.", "1e5", "1.2.3", "..1", "1,5", "0x1", "inf", "NaN", "1-",
        "+-1", " 1", "1 ",
    ] {
        assert_eq!(decimal(s), None, "{s}");
    }
}
