//! Styles of a terminal, and the marks that are drawn with them.
use vstd::prelude::*;

use crate::width::RESET;
#[allow(unused_imports)]
use crate::width::{
    closed, lemma_sequence_shown, lemma_shown_concat, lemma_shown_unescaped, visible, ESCAPE,
};

verus! {

/// Whether styles are used: on a terminal, unless `NO_COLOR` is set.
pub fn style_enabled(is_terminal: bool, no_color: bool) -> (styled: bool)
    ensures
        styled == (is_terminal && !no_color),
{
    is_terminal && !no_color
}

/// `text` in the style `code`, where styles are used.
pub open spec fn in_style(styled: bool, code: Seq<char>, text: Seq<char>) -> Seq<char> {
    if styled {
        "\x1b["@ + code + "m"@ + text + RESET@
    } else {
        text
    }
}

/// Puts `text` in the style `code`.
pub fn sgr(styled: bool, code: &str, text: &str) -> (line: String)
    ensures
        line@ == in_style(styled, code@, text@),
{
    if styled {
        "\x1b[".to_owned().concat(code).concat("m").concat(text).concat(RESET)
    } else {
        text.to_owned()
    }
}

/// A style changes nothing of what a terminal shows, and leaves no sequence open, not even
/// one of the text.
pub proof fn law_style_is_invisible(styled: bool, code: Seq<char>, text: Seq<char>)
    requires
        !code.contains('m'),
    ensures
        visible(in_style(styled, code, text)) == visible(text),
        styled || closed(text) ==> closed(in_style(styled, code, text)),
{
    if styled {
        reveal_strlit("\x1b[");
        reveal_strlit("m");
        reveal_strlit("\x1b[0m");
        let body = seq!['['] + code;
        let start = "\x1b["@ + code + "m"@;
        assert(start =~= seq![ESCAPE] + body + seq!['m']);
        assert forall|i: int| 0 <= i < body.len() implies body[i] != 'm' by {
            if i > 0 {
                assert(code.contains(code[i - 1]));
            }
        }
        lemma_sequence_shown(body);
        assert(RESET@ =~= seq![ESCAPE] + seq!['[', '0'] + seq!['m']);
        lemma_sequence_shown(seq!['[', '0']);
        lemma_shown_concat(start, text, false);
        lemma_shown_concat(start + text, RESET@, false);
        assert(visible(in_style(styled, code, text)) =~= visible(text));
    }
}

/// Bold text, where styles are used.
pub open spec fn in_bold(styled: bool, text: Seq<char>) -> Seq<char> {
    in_style(styled, "1"@, text)
}

/// Faint text, where styles are used.
pub open spec fn in_dim(styled: bool, text: Seq<char>) -> Seq<char> {
    in_style(styled, "2"@, text)
}

/// Cyan text, where styles are used.
pub open spec fn in_cyan(styled: bool, text: Seq<char>) -> Seq<char> {
    in_style(styled, "36"@, text)
}

/// Green text, where styles are used.
pub open spec fn in_green(styled: bool, text: Seq<char>) -> Seq<char> {
    in_style(styled, "32"@, text)
}

/// Yellow text, where styles are used.
pub open spec fn in_yellow(styled: bool, text: Seq<char>) -> Seq<char> {
    in_style(styled, "33"@, text)
}

/// Red text, where styles are used.
pub open spec fn in_red(styled: bool, text: Seq<char>) -> Seq<char> {
    in_style(styled, "31"@, text)
}

/// Faint text shows itself.
pub proof fn lemma_dim_shown(styled: bool, text: Seq<char>)
    requires
        !text.contains(ESCAPE),
    ensures
        visible(in_dim(styled, text)) == text,
        closed(in_dim(styled, text)),
{
    lemma_shown_unescaped(text);
    reveal_strlit("2");
    law_style_is_invisible(styled, "2"@, text);
}

/// Bold text.
pub fn bold(styled: bool, text: &str) -> (line: String)
    ensures
        line@ == in_bold(styled, text@),
{
    sgr(styled, "1", text)
}

/// Faint text.
pub fn dim(styled: bool, text: &str) -> (line: String)
    ensures
        line@ == in_dim(styled, text@),
{
    sgr(styled, "2", text)
}

/// Cyan text.
pub fn cyan(styled: bool, text: &str) -> (line: String)
    ensures
        line@ == in_cyan(styled, text@),
{
    sgr(styled, "36", text)
}

/// Green text.
pub fn green(styled: bool, text: &str) -> (line: String)
    ensures
        line@ == in_green(styled, text@),
{
    sgr(styled, "32", text)
}

/// Yellow text.
pub fn yellow(styled: bool, text: &str) -> (line: String)
    ensures
        line@ == in_yellow(styled, text@),
{
    sgr(styled, "33", text)
}

/// Red text.
pub fn red(styled: bool, text: &str) -> (line: String)
    ensures
        line@ == in_red(styled, text@),
{
    sgr(styled, "31", text)
}

/// The mark of a base, with a runner on it or not.
pub open spec fn base_mark(styled: bool, occupied: bool) -> Seq<char> {
    if occupied {
        in_yellow(styled, "◆"@)
    } else {
        in_dim(styled, "◇"@)
    }
}

/// Draws a base.
pub fn base_dot(styled: bool, occupied: bool) -> (mark: String)
    ensures
        mark@ == base_mark(styled, occupied),
{
    if occupied {
        yellow(styled, "◆")
    } else {
        dim(styled, "◇")
    }
}

/// The colours of the dots that count balls, strikes and outs.
#[derive(Clone, Copy, Debug, PartialEq, Eq, Structural)]
pub enum DotColor {
    Green,
    Yellow,
    Red,
}

/// A counted dot.
pub open spec fn full_dot(styled: bool, color: DotColor) -> Seq<char> {
    match color {
        DotColor::Green => in_green(styled, "●"@),
        DotColor::Yellow => in_yellow(styled, "●"@),
        DotColor::Red => in_red(styled, "●"@),
    }
}

/// The first `count` dots of a row, of which `filled` are counted.
pub open spec fn dot_row(styled: bool, filled: nat, count: nat, color: DotColor) -> Seq<char>
    decreases count,
{
    if count == 0 {
        Seq::empty()
    } else {
        dot_row(styled, filled, (count - 1) as nat, color) + (if count <= filled {
            full_dot(styled, color)
        } else {
            in_dim(styled, "○"@)
        })
    }
}

/// Draws a row of `total` dots, of which the first `filled` are counted.
pub fn dots(styled: bool, filled: usize, total: usize, color: DotColor) -> (row: String)
    ensures
        row@ == dot_row(styled, filled as nat, total as nat, color),
{
    let mut row = String::new();
    let mut index: usize = 0;
    while index < total
        invariant
            index <= total,
            row@ == dot_row(styled, filled as nat, index as nat, color),
        decreases total - index,
    {
        if index < filled {
            let dot = match color {
                DotColor::Green => green(styled, "●"),
                DotColor::Yellow => yellow(styled, "●"),
                DotColor::Red => red(styled, "●"),
            };
            row.append(&dot);
        } else {
            row.append(&dim(styled, "○"));
        }
        index += 1;
    }
    row
}

/// A row of dots shows one for each place, the counted ones first.
pub proof fn law_dots_shown(styled: bool, filled: nat, count: nat, color: DotColor)
    ensures
        visible(dot_row(styled, filled, count, color)) == Seq::new(
            count,
            |i: int|
                if i < filled {
                    '●'
                } else {
                    '○'
                },
        ),
        closed(dot_row(styled, filled, count, color)),
    decreases count,
{
    let expected = Seq::new(
        count,
        |i: int|
            if i < filled {
                '●'
            } else {
                '○'
            },
    );
    if count == 0 {
        assert(visible(dot_row(styled, filled, count, color)) =~= expected);
    } else {
        let before = dot_row(styled, filled, (count - 1) as nat, color);
        law_dots_shown(styled, filled, (count - 1) as nat, color);
        reveal_strlit("●");
        reveal_strlit("○");
        reveal_strlit("2");
        reveal_strlit("31");
        reveal_strlit("32");
        reveal_strlit("33");
        let mark = if count <= filled {
            "●"@
        } else {
            "○"@
        };
        assert(!mark.contains(ESCAPE));
        lemma_shown_unescaped(mark);
        let code = if count > filled {
            "2"@
        } else {
            match color {
                DotColor::Green => "32"@,
                DotColor::Yellow => "33"@,
                DotColor::Red => "31"@,
            }
        };
        law_style_is_invisible(styled, code, mark);
        lemma_shown_concat(before, in_style(styled, code, mark), false);
        assert(visible(dot_row(styled, filled, count, color)) =~= expected);
    }
}

/// A base shows a full mark exactly where a runner stands on it.
pub proof fn law_bases_shown(styled: bool, occupied: bool)
    ensures
        visible(base_mark(styled, occupied)) == seq![
            if occupied {
                '◆'
            } else {
                '◇'
            },
        ],
        closed(base_mark(styled, occupied)),
{
    let mark = if occupied {
        "◆"@
    } else {
        "◇"@
    };
    reveal_strlit("◆");
    reveal_strlit("◇");
    reveal_strlit("2");
    reveal_strlit("33");
    assert(!mark.contains(ESCAPE));
    lemma_shown_unescaped(mark);
    law_style_is_invisible(styled, if occupied { "33"@ } else { "2"@ }, mark);
    assert(visible(base_mark(styled, occupied)) =~= mark);
}

/// Without styles a text stays as it is. With them it stands whole between two sequences, of
/// which the second ends all styles.
pub proof fn law_styles_go_around(code: Seq<char>, text: Seq<char>)
    ensures
        in_style(false, code, text) == text,
        in_style(true, code, text) == seq![ESCAPE, '['] + code + seq!['m'] + text + seq![
            ESCAPE,
            '[',
            '0',
            'm',
        ],
{
    reveal_strlit("\x1b[");
    reveal_strlit("m");
    reveal_strlit("\x1b[0m");
    assert(in_style(true, code, text) =~= seq![ESCAPE, '['] + code + seq!['m'] + text + seq![
        ESCAPE,
        '[',
        '0',
        'm',
    ]);
}

/// Counted balls are green, strikes yellow and outs red; what is not counted is faint. A row
/// grows by one dot at its end.
pub proof fn law_dots_have_colours(styled: bool, filled: nat, count: nat, color: DotColor)
    ensures
        full_dot(styled, DotColor::Green) == in_style(styled, seq!['3', '2'], seq!['●']),
        full_dot(styled, DotColor::Yellow) == in_style(styled, seq!['3', '3'], seq!['●']),
        full_dot(styled, DotColor::Red) == in_style(styled, seq!['3', '1'], seq!['●']),
        dot_row(styled, filled, 0, color).len() == 0,
        dot_row(styled, filled, count + 1, color) == dot_row(styled, filled, count, color) + (
        if count < filled {
            full_dot(styled, color)
        } else {
            in_style(styled, seq!['2'], seq!['○'])
        }),
{
    reveal_strlit("32");
    reveal_strlit("33");
    reveal_strlit("31");
    reveal_strlit("2");
    reveal_strlit("●");
    reveal_strlit("○");
    assert("32"@ =~= seq!['3', '2']);
    assert("33"@ =~= seq!['3', '3']);
    assert("31"@ =~= seq!['3', '1']);
    assert("2"@ =~= seq!['2']);
    assert("●"@ =~= seq!['●']);
    assert("○"@ =~= seq!['○']);
}

/// Each style has its own code, and a taken base is yellow, a free one faint.
pub proof fn law_styles_have_codes(styled: bool, text: Seq<char>)
    ensures
        in_bold(styled, text) == in_style(styled, seq!['1'], text),
        in_dim(styled, text) == in_style(styled, seq!['2'], text),
        in_red(styled, text) == in_style(styled, seq!['3', '1'], text),
        in_green(styled, text) == in_style(styled, seq!['3', '2'], text),
        in_yellow(styled, text) == in_style(styled, seq!['3', '3'], text),
        in_cyan(styled, text) == in_style(styled, seq!['3', '6'], text),
        base_mark(styled, true) == in_style(styled, seq!['3', '3'], seq!['◆']),
        base_mark(styled, false) == in_style(styled, seq!['2'], seq!['◇']),
{
    reveal_strlit("1");
    reveal_strlit("2");
    reveal_strlit("31");
    reveal_strlit("32");
    reveal_strlit("33");
    reveal_strlit("36");
    reveal_strlit("◆");
    reveal_strlit("◇");
    assert("1"@ =~= seq!['1']);
    assert("2"@ =~= seq!['2']);
    assert("31"@ =~= seq!['3', '1']);
    assert("32"@ =~= seq!['3', '2']);
    assert("33"@ =~= seq!['3', '3']);
    assert("36"@ =~= seq!['3', '6']);
    assert("◆"@ =~= seq!['◆']);
    assert("◇"@ =~= seq!['◇']);
}

} // verus!
