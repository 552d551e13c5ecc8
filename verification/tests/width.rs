use kbo_cli::style::{base_dot, bold, cyan, dim, dots, green, red, sgr, style_enabled, yellow, DotColor};
use kbo_cli::width::{fit, pad_left_visual, pad_right_visual, strip_ansi, visual_width};
use unicode_width::{UnicodeWidthChar, UnicodeWidthStr};

#[test]
fn escape_sequences_are_removed() {
    assert_eq!(strip_ansi("\x1b[1mab\x1b[0m"), "ab");
    assert_eq!(strip_ansi("a\x1b[38;2;1;2;3mb"), "ab");
    assert_eq!(strip_ansi("a\x1b[31"), "a");
    assert_eq!(strip_ansi("\x1b\x1bm\x1bmx"), "x");
    assert_eq!(strip_ansi("mama"), "mama");
    let once = strip_ansi("a\x1b[1m\x1bb");
    assert_eq!(strip_ansi(&once), once);
}

#[test]
fn columns_are_those_of_unicode() {
    assert_eq!(visual_width("abc"), 3);
    assert_eq!(visual_width("두산"), 4);
    assert_eq!(visual_width("\x1b[1m두산\x1b[0m"), 4);
    assert_eq!(visual_width(""), 0);
    assert_eq!(visual_width("…─│●"), 4);
    assert_eq!(visual_width("👩‍🔬"), 2);
    assert_eq!(visual_width("\u{7}"), 1);
}

#[test]
fn plain_characters_have_fixed_columns() {
    for c in (' '..='~').chain(['…']) {
        assert_eq!(UnicodeWidthChar::width(c), Some(1));
    }
    for c in '가'..='힣' {
        assert_eq!(UnicodeWidthChar::width(c), Some(2));
    }
    let text: String = ('가'..='힣').chain(' '..='~').chain(['…']).collect();
    assert_eq!(UnicodeWidthStr::width(text.as_str()), 11172 * 2 + 95 + 1);
    for code in 0..=0x10ffffu32 {
        if let Some(c) = char::from_u32(code) {
            assert_eq!(UnicodeWidthChar::width(c).is_none(), c.is_control());
        }
    }
}

#[test]
fn blanks_add_their_columns() {
    for code in 0..=0x10ffffu32 {
        if let Some(c) = char::from_u32(code) {
            let text = format!("{c}");
            let width = UnicodeWidthStr::width(text.as_str());
            assert_eq!(UnicodeWidthStr::width(format!("{c}  ").as_str()), width + 2);
            assert_eq!(UnicodeWidthStr::width(format!("  {c}").as_str()), width + 2);
        }
    }
    for text in ["🇰🇷🇯🇵", "👩‍🔬", "\u{fe0f}x", "1\u{fe0f}\u{20e3}", "לא", "ក្ក", "\u{200d}👩"] {
        let width = UnicodeWidthStr::width(text);
        assert_eq!(UnicodeWidthStr::width(format!("{text} ").as_str()), width + 1);
        assert_eq!(UnicodeWidthStr::width(format!(" {text}").as_str()), width + 1);
    }
}

#[test]
fn plain_characters_add_their_columns() {
    let marks = ('─'..='╿').chain("·…⌂▸◀◆◇○●".chars()).map(|c| (c, 1));
    let ascii = (' '..='~').map(|c| (c, 1));
    let hangul = ('가'..='힣').map(|c| (c, 2));
    let texts = ["", "a", "두산", "🇰🇷", "\u{fe0f}x", "\u{20e3}", "\u{338}", "\u{200d}👩", "\u{fe0e}"];
    for (c, columns) in marks.chain(ascii).chain(hangul) {
        assert_eq!(UnicodeWidthChar::width(c), Some(columns));
        for text in texts {
            let width = UnicodeWidthStr::width(text);
            let around = format!("{c}{c} {text}{c}");
            assert_eq!(UnicodeWidthStr::width(around.as_str()), 3 * columns + 1 + width);
            let inside = format!("{c} {text} {c}");
            assert_eq!(UnicodeWidthStr::width(inside.as_str()), 2 * columns + 2 + width);
        }
        let plain = format!("{c}1#{c}…{c}힣");
        assert_eq!(UnicodeWidthStr::width(plain.as_str()), 3 * columns + 5);
    }
}

#[test]
fn a_text_that_fits_is_filled() {
    assert_eq!(fit("abc", 5), "abc  ");
    assert_eq!(fit("abc", 3), "abc");
    assert_eq!(fit("두산 ", 6), "두산  ");
    assert_eq!(fit("a\nb", 4), "a b ");
    assert_eq!(fit("", 2), "  ");
    assert_eq!(fit("\x1b[1mab\x1b[0m", 4), "\x1b[1mab\x1b[0m  ");
}

#[test]
fn a_text_that_does_not_fit_is_shortened() {
    assert_eq!(fit("abcdef", 4), "abc…");
    assert_eq!(fit("두산베어스", 6), "두산… ");
    assert_eq!(fit("두산베어스", 7), "두산베…");
    assert_eq!(fit("\x1b[1mabcdef\x1b[0m", 4), "\x1b[1mabc\x1b[0m…");
    assert_eq!(fit("abc\x1b[1mdef", 4), "abc\x1b[1m\x1b[0m…");
    assert_eq!(fit("abc", 1), "…");
    assert_eq!(fit("abc", 0), "…");
    assert_eq!(fit("가", 1), "…");
}

#[test]
fn a_fitted_plain_text_has_its_columns() {
    for text in ["KIA 3 : 2 LG", "차이니스 타이베이", "\x1b[2m7회말\x1b[0m 1사", "", "x"] {
        for width in 1..30 {
            let line = fit(text, width);
            assert_eq!(visual_width(&line), width, "{text} {width}");
            assert!(!line.contains(['\n', '\r', '\t']));
        }
    }
}

#[test]
fn padding_counts_columns() {
    assert_eq!(pad_right_visual("회", 7), "회     ");
    assert_eq!(pad_right_visual("타자", 4), "타자");
    assert_eq!(pad_right_visual("차이니스", 7), "차이니스");
    assert_eq!(pad_right_visual(" KIA ", 8), " KIA    ");
    assert_eq!(pad_left_visual("7", 3), "  7");
    assert_eq!(pad_left_visual("1234", 3), "1234");
    assert_eq!(pad_left_visual("\x1b[1m7\x1b[0m", 3), "  \x1b[1m7\x1b[0m");
}

#[test]
fn styles_need_a_terminal() {
    assert!(style_enabled(true, false));
    assert!(!style_enabled(true, true));
    assert!(!style_enabled(false, false));
    assert!(!style_enabled(false, true));
}

#[test]
fn styles_are_sequences() {
    assert_eq!(sgr(true, "5", "x"), "\x1b[5mx\x1b[0m");
    assert_eq!(sgr(false, "5", "x"), "x");
    assert_eq!(bold(true, "x"), "\x1b[1mx\x1b[0m");
    assert_eq!(dim(true, "x"), "\x1b[2mx\x1b[0m");
    assert_eq!(cyan(true, "x"), "\x1b[36mx\x1b[0m");
    assert_eq!(green(true, "x"), "\x1b[32mx\x1b[0m");
    assert_eq!(yellow(true, "x"), "\x1b[33mx\x1b[0m");
    assert_eq!(red(true, "x"), "\x1b[31mx\x1b[0m");
    assert_eq!(strip_ansi(&bold(true, "두산")), "두산");
    assert_eq!(visual_width(&red(true, "두산")), visual_width("두산"));
}

#[test]
fn marks_are_drawn() {
    assert_eq!(base_dot(false, true), "◆");
    assert_eq!(base_dot(false, false), "◇");
    assert_eq!(base_dot(true, true), "\x1b[33m◆\x1b[0m");
    assert_eq!(base_dot(true, false), "\x1b[2m◇\x1b[0m");
    assert_eq!(dots(false, 1, 3, DotColor::Green), "●○○");
    assert_eq!(dots(false, 9, 2, DotColor::Red), "●●");
    assert_eq!(dots(true, 1, 2, DotColor::Yellow), "\x1b[33m●\x1b[0m\x1b[2m○\x1b[0m");
    assert_eq!(strip_ansi(&dots(true, 2, 3, DotColor::Red)), "●●○");
}

#[test]
fn plain_texts_are_cut_by_their_columns() {
    assert_eq!(fit("한글abc", 7), "한글abc");
    assert_eq!(fit("한글abc", 6), "한글a…");
    assert_eq!(fit("한글abc", 4), "한… ");
    assert_eq!(fit("한글abc", 1), "…");
    assert_eq!(fit("\x1b[1m한글abc\x1b[0m", 4), "\x1b[1m한\x1b[0m… ");
}

#[test]
fn styles_are_invisible_on_open_sequences() {
    for text in ["a", "a\x1b[3", "\x1b[", "a\x1b[31mb"] {
        for styled in [false, true] {
            assert_eq!(strip_ansi(&bold(styled, text)), strip_ansi(text));
        }
    }
    assert_eq!(strip_ansi(&format!("{}b", dim(true, "a\x1b[3"))), "ab");
}
