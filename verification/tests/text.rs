use kbo_cli::number::{parse_i32, parse_usize, write_decimal, write_signed};
use kbo_cli::text::{
    chars_of, display_line, is_white_space, repeat_char, same_text, single_line, trim, trim_end,
};

#[test]
fn white_space_is_that_of_unicode() {
    for code in 0..=0x10ffffu32 {
        if let Some(c) = char::from_u32(code) {
            assert_eq!(is_white_space(c), c.is_whitespace(), "{code:x}");
        }
    }
}

#[test]
fn trimming_takes_white_space_only() {
    for text in ["", "  ", " a b ", "\u{3000}가\u{a0}", "x", "\n\tq\r\n"] {
        assert_eq!(trim(text), text.trim());
        assert_eq!(trim_end(text), text.trim_end());
    }
}

#[test]
fn display_line_keeps_one_line() {
    assert_eq!(display_line("a\r\nb\tc \n"), "a  b c");
    assert_eq!(display_line("  한화  "), "  한화");
    assert_eq!(display_line("\u{b}x"), "\u{b}x");
    assert_eq!(display_line(" \n"), "");
    assert_eq!(display_line(&display_line("a\n b\n")), display_line("a\n b\n"));
}

#[test]
fn single_line_joins_words() {
    for text in ["", " \n ", "a", " a  b\n\nc ", "1회초\u{3000}두산 공격", "x\u{85}y"] {
        let expected = text.split_whitespace().collect::<Vec<_>>().join(" ");
        assert_eq!(single_line(text), expected);
        assert_eq!(single_line(&single_line(text)), expected);
    }
    assert_eq!(single_line("  김도영 :\n 홈런  "), "김도영 : 홈런");
}

#[test]
fn texts_are_compared_by_characters() {
    assert!(same_text("두산", "두산"));
    assert!(!same_text("두산", "두산 "));
    assert!(!same_text("a", "b"));
    assert_eq!(chars_of("가b"), vec!['가', 'b']);
    assert_eq!(repeat_char('─', 3), "───");
    assert_eq!(repeat_char('x', 0), "");
}

#[test]
fn decimals_are_written() {
    assert_eq!(write_decimal(0), "0");
    assert_eq!(write_decimal(1005), "1005");
    assert_eq!(write_decimal(u64::MAX), "18446744073709551615");
    assert_eq!(write_signed(i32::MIN), "-2147483648");
    assert_eq!(write_signed(-1), "-1");
    assert_eq!(write_signed(12), "12");
}

#[test]
fn counts_are_read_as_std_reads_them() {
    for text in [
        "", "0", "7", "007", "+3", "-3", "+", "-", " 3", "3 ", "3a", "٣", "++3", "18446744073709551615",
        "18446744073709551616", "99999999999999999999999", "00000000000000000000000001",
    ] {
        assert_eq!(parse_usize(text), text.parse::<usize>().ok(), "{text}");
    }
}

#[test]
fn integers_are_read_as_std_reads_them() {
    for text in [
        "", "0", "-0", "+5", "-5", "--5", "-", "2147483647", "2147483648", "-2147483648",
        "-2147483649", "12x", "9999999999999999999999", "-00012",
    ] {
        assert_eq!(parse_i32(text), text.parse::<i32>().ok(), "{text}");
    }
}

#[test]
fn written_numbers_read_back() {
    for value in [0, 9, 10, 99, 100, 12345, i32::MAX] {
        assert_eq!(parse_i32(&write_signed(value)), Some(value));
        assert_eq!(parse_i32(&write_signed(-value)), Some(-value));
        assert_eq!(parse_usize(&write_decimal(value as u64)), Some(value as usize));
    }
}
