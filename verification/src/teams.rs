//! The teams: how their names are shown and in which colours.
use vstd::prelude::*;

use crate::number::write_decimal;
use crate::style::bold;
use crate::text::same_text;
#[allow(unused_imports)]
use crate::{
    number::{decimal, law_decimal_reads_back},
    style::{in_bold, law_style_is_invisible},
    width::{
        closed, inside_after, lemma_sequence_shown, lemma_shown_concat, lemma_shown_unescaped, shown,
        visible, ESCAPE,
    },
};

verus! {

/// A colour: red, green and blue.
pub type Rgb = (u8, u8, u8);

/// The name of a team on its badge.
pub open spec fn badge_name(team: Seq<char>) -> Seq<char> {
    if team == "KT"@ {
        "K T"@
    } else if team == "LG"@ {
        "L G"@
    } else if team == "NC"@ {
        "N C"@
    } else {
        team
    }
}

/// The name of a team on its badge: two letters are spread.
pub fn team_display(team: &str) -> (name: &str)
    ensures
        name@ == badge_name(team@),
{
    if same_text(team, "KT") {
        "K T"
    } else if same_text(team, "LG") {
        "L G"
    } else if same_text(team, "NC") {
        "N C"
    } else {
        team
    }
}

/// The colour of a team, where it is known.
pub open spec fn team_color(team: Seq<char>) -> Option<Rgb> {
    if team == "LG"@ {
        Some((195, 4, 82))
    } else if team == "두산"@ {
        Some((26, 23, 72))
    } else if team == "KIA"@ {
        Some((234, 0, 41))
    } else if team == "KT"@ {
        Some((0, 0, 0))
    } else if team == "삼성"@ {
        Some((7, 76, 161))
    } else if team == "한화"@ {
        Some((252, 78, 0))
    } else if team == "SSG"@ {
        Some((206, 14, 45))
    } else if team == "롯데"@ {
        Some((4, 30, 66))
    } else if team == "NC"@ {
        Some((49, 82, 136))
    } else if team == "키움"@ {
        Some((87, 5, 20))
    } else if team == "대한민국"@ {
        Some((0, 71, 160))
    } else if team == "일본"@ {
        Some((188, 0, 45))
    } else if team == "중국"@ {
        Some((222, 41, 16))
    } else if team == "차이니스 타이베이"@ {
        Some((0, 51, 160))
    } else if team == "홍콩"@ {
        Some((222, 41, 16))
    } else if team == "태국"@ {
        Some((36, 29, 112))
    } else if team == "필리핀"@ {
        Some((0, 56, 168))
    } else if team == "팔레스타인"@ {
        Some((0, 122, 61))
    } else {
        None
    }
}

/// Looks up the colour of a team.
pub fn team_rgb(team: &str) -> (color: Option<Rgb>)
    ensures
        color == team_color(team@),
{
    if same_text(team, "LG") {
        Some((195, 4, 82))
    } else if same_text(team, "두산") {
        Some((26, 23, 72))
    } else if same_text(team, "KIA") {
        Some((234, 0, 41))
    } else if same_text(team, "KT") {
        Some((0, 0, 0))
    } else if same_text(team, "삼성") {
        Some((7, 76, 161))
    } else if same_text(team, "한화") {
        Some((252, 78, 0))
    } else if same_text(team, "SSG") {
        Some((206, 14, 45))
    } else if same_text(team, "롯데") {
        Some((4, 30, 66))
    } else if same_text(team, "NC") {
        Some((49, 82, 136))
    } else if same_text(team, "키움") {
        Some((87, 5, 20))
    } else if same_text(team, "대한민국") {
        Some((0, 71, 160))
    } else if same_text(team, "일본") {
        Some((188, 0, 45))
    } else if same_text(team, "중국") {
        Some((222, 41, 16))
    } else if same_text(team, "차이니스 타이베이") {
        Some((0, 51, 160))
    } else if same_text(team, "홍콩") {
        Some((222, 41, 16))
    } else if same_text(team, "태국") {
        Some((36, 29, 112))
    } else if same_text(team, "필리핀") {
        Some((0, 56, 168))
    } else if same_text(team, "팔레스타인") {
        Some((0, 122, 61))
    } else {
        None
    }
}

/// The greatest of the three parts of a colour.
pub open spec fn strongest(color: Rgb) -> u8 {
    if color.0 >= color.1 && color.0 >= color.2 {
        color.0
    } else if color.1 >= color.2 {
        color.1
    } else {
        color.2
    }
}

/// Whether single precision puts `150 * part / most`, a number halfway between two
/// integers, below the half: the nearest `150 / most` is too small there, and the
/// product with `part` does not round back up.
pub open spec fn rounds_down(part: int, most: int) -> bool {
    ||| most % 36 == 0 && (12 * part == 5 * most || 4 * part == 3 * most)
    ||| most == 140 && part == 119
}

/// `150 * part / most` to the nearest integer, with halves up but for those that
/// `rounds_down` names.
pub open spec fn raised(part: int, most: int) -> int {
    let rounded = (300 * part + most) / (2 * most);
    if rounds_down(part, most) {
        rounded - 1
    } else {
        rounded
    }
}

/// `color`, bright enough to be read on a dark ground: the same colour with 150 as its
/// strongest part, or a grey for black.
pub open spec fn brightened(color: Rgb) -> Rgb {
    let most = strongest(color);
    if most == 0 {
        (160, 160, 160)
    } else if most >= 150 {
        color
    } else {
        (
            raised(color.0 as int, most as int) as u8,
            raised(color.1 as int, most as int) as u8,
            raised(color.2 as int, most as int) as u8,
        )
    }
}

/// A raised part is 150 at most, and 150 for the strongest part.
proof fn lemma_raised_range(part: int, most: int)
    requires
        0 <= part <= most,
        1 <= most < 150,
    ensures
        0 <= raised(part, most) <= 150,
        raised(most, most) == 150,
{
    let twice = 2 * most;
    assert(0 <= (300 * part + most) / twice <= 150) by (nonlinear_arith)
        requires
            0 <= part <= most,
            1 <= most,
            twice == 2 * most,
    ;
    assert((300 * most + most) / twice == 150) by (nonlinear_arith)
        requires
            1 <= most,
            twice == 2 * most,
    ;
    if rounds_down(part, most) {
        assert((300 * part + most) / twice >= 1) by (nonlinear_arith)
            requires
                2 * part >= most || 12 * part == 5 * most,
                1 <= most,
                twice == 2 * most,
        ;
    }
}

fn raise(part: u8, most: u8) -> (level: u8)
    requires
        part <= most,
        1 <= most < 150,
    ensures
        level == raised(part as int, most as int),
{
    proof {
        lemma_raised_range(part as int, most as int);
    }
    let p = part as u32;
    let m = most as u32;
    let rounded = (300 * p + m) / (2 * m);
    if (m % 36 == 0 && (12 * p == 5 * m || 4 * p == 3 * m)) || (m == 140 && p == 119) {
        (rounded - 1) as u8
    } else {
        rounded as u8
    }
}

/// Makes a colour bright enough to be read on a dark ground.
pub fn bright_rgb(color: Rgb) -> (bright: Rgb)
    ensures
        bright == brightened(color),
{
    let (r, g, b) = color;
    let mut most: u8 = r;
    if g > most {
        most = g;
    }
    if b > most {
        most = b;
    }
    if most == 0 {
        return (160, 160, 160);
    }
    if most >= 150 {
        return color;
    }
    (raise(r, most), raise(g, most), raise(b, most))
}

/// A brightened colour is bright: its strongest part is 150 at least, and brightening
/// it again changes nothing.
pub proof fn law_brightening_is_final(color: Rgb)
    ensures
        strongest(brightened(color)) >= 150,
        brightened(brightened(color)) == brightened(color),
{
    let most = strongest(color) as int;
    if 0 < most < 150 {
        lemma_raised_range(color.0 as int, most);
        lemma_raised_range(color.1 as int, most);
        lemma_raised_range(color.2 as int, most);
    }
}

/// The parts of a colour in a sequence.
pub open spec fn color_code(color: Rgb) -> Seq<char> {
    decimal(color.0 as nat) + ";"@ + decimal(color.1 as nat) + ";"@ + decimal(color.2 as nat)
}

fn write_color(color: Rgb) -> (code: String)
    ensures
        code@ == color_code(color),
{
    write_decimal(color.0 as u64).concat(";").concat(&write_decimal(color.1 as u64)).concat(
        ";",
    ).concat(&write_decimal(color.2 as u64))
}

/// The text colour on a badge: black on a light colour, white on a dark one.
pub open spec fn badge_ink(color: Rgb) -> Seq<char> {
    if (color.0 * 299 + color.1 * 587 + color.2 * 114) / 1000 > 128 {
        "0;0;0"@
    } else {
        "255;255;255"@
    }
}

/// The name of a team on its badge, between blanks.
pub open spec fn badge_label(team: Seq<char>) -> Seq<char> {
    " "@ + badge_name(team) + " "@
}

/// The badge of a team.
pub open spec fn badge(styled: bool, team: Seq<char>) -> Seq<char> {
    let label = badge_label(team);
    match team_color(team) {
        None => in_bold(styled, label),
        Some(color) => if styled {
            "\x1b[1m\x1b[48;2;"@ + color_code(color) + "m\x1b[38;2;"@ + badge_ink(color) + "m"@
                + label + "\x1b[49m\x1b[39m\x1b[22m"@
        } else {
            label
        },
    }
}

/// Draws the badge of a team.
pub fn team_badge(styled: bool, team: &str) -> (line: String)
    ensures
        line@ == badge(styled, team@),
{
    let label = " ".to_owned().concat(team_display(team)).concat(" ");
    let color = match team_rgb(team) {
        Some(color) => color,
        None => return bold(styled, &label),
    };
    if !styled {
        return label;
    }
    let brightness = (color.0 as u32 * 299 + color.1 as u32 * 587 + color.2 as u32 * 114) / 1000;
    let ink = if brightness > 128 { "0;0;0" } else { "255;255;255" };
    "\x1b[1m\x1b[48;2;".to_owned().concat(&write_color(color)).concat("m\x1b[38;2;").concat(
        ink,
    ).concat("m").concat(&label).concat("\x1b[49m\x1b[39m\x1b[22m")
}

/// `text` in the colour of a team.
pub open spec fn in_team_color(styled: bool, team: Seq<char>, text: Seq<char>) -> Seq<char> {
    match team_color(team) {
        None => in_bold(styled, text),
        Some(color) => if styled {
            "\x1b[38;2;"@ + color_code(brightened(color)) + "m"@ + text + "\x1b[39m"@
        } else {
            text
        },
    }
}

/// Puts `text` in the colour of a team, or in bold where the team has none.
pub fn team_fg(styled: bool, team: &str, text: &str) -> (line: String)
    ensures
        line@ == in_team_color(styled, team@, text@),
{
    let color = match team_rgb(team) {
        Some(color) => bright_rgb(color),
        None => return bold(styled, text),
    };
    if !styled {
        return text.to_owned();
    }
    "\x1b[38;2;".to_owned().concat(&write_color(color)).concat("m").concat(text).concat("\x1b[39m")
}

proof fn lemma_code_digits(color: Rgb)
    ensures
        !color_code(color).contains('m'),
{
    reveal_strlit(";");
    law_decimal_reads_back(color.0 as nat);
    law_decimal_reads_back(color.1 as nat);
    law_decimal_reads_back(color.2 as nat);
    let code = color_code(color);
    let red = decimal(color.0 as nat).len();
    let green = red + 1 + decimal(color.1 as nat).len();
    assert forall|i: int| 0 <= i < code.len() implies code[i] != 'm' by {
        if i < red {
            assert(code[i] == decimal(color.0 as nat)[i]);
        } else if red < i < green {
            assert(code[i] == decimal(color.1 as nat)[i - red - 1]);
        } else if i > green {
            assert(code[i] == decimal(color.2 as nat)[i - green - 1]);
        }
    }
}

/// A sequence that opens with `[`, leads to a code and ends shows nothing.
proof fn lemma_code_shown(start: Seq<char>, code: Seq<char>)
    requires
        start.len() > 0,
        start[0] == ESCAPE,
        !start.contains('m'),
        !code.contains('m'),
    ensures
        visible(start + code + seq!['m']) == Seq::<char>::empty(),
        closed(start + code + seq!['m']),
        shown(start + code + seq!['m'], true) == Seq::<char>::empty(),
        !inside_after(start + code + seq!['m'], true),
{
    let body = start.skip(1) + code;
    assert(start + code + seq!['m'] =~= seq![ESCAPE] + body + seq!['m']);
    assert forall|i: int| 0 <= i < body.len() implies body[i] != 'm' by {
        if i < start.len() - 1 {
            assert(start.contains(start[i + 1]));
        } else {
            assert(code.contains(code[i - (start.len() - 1)]));
        }
    }
    lemma_sequence_shown(body);
}

/// A badge shows the name of the team between blanks, whatever its colours.
pub proof fn law_badge_shows_name(styled: bool, team: Seq<char>)
    ensures
        visible(badge(styled, team)) == visible(badge_label(team)),
        styled || closed(team) ==> closed(badge(styled, team)),
{
    let label = badge_label(team);
    reveal_strlit("K T");
    reveal_strlit("L G");
    reveal_strlit("N C");
    reveal_strlit(" ");
    assert(closed(team) ==> closed(badge_name(team))) by {
        if badge_name(team) != team {
            assert(!badge_name(team).contains(ESCAPE));
            lemma_shown_unescaped(badge_name(team));
        }
    }
    assert(!" "@.contains(ESCAPE));
    lemma_shown_unescaped(" "@);
    lemma_shown_concat(" "@, badge_name(team), false);
    lemma_shown_concat(" "@ + badge_name(team), " "@, false);
    assert(closed(team) ==> closed(label));
    match team_color(team) {
        None => {
            reveal_strlit("1");
            law_style_is_invisible(styled, "1"@, label);
        },
        Some(color) => {
            if styled {
                let ink = badge_ink(color);
                reveal_strlit("\x1b[1m\x1b[48;2;");
                reveal_strlit("m\x1b[38;2;");
                reveal_strlit("m");
                reveal_strlit("\x1b[49m\x1b[39m\x1b[22m");
                reveal_strlit("0;0;0");
                reveal_strlit("255;255;255");
                let one = seq![ESCAPE, '[', '1'] + seq!['m'];
                let two_start = seq![ESCAPE, '[', '4', '8', ';', '2', ';'];
                let two = two_start + color_code(color) + seq!['m'];
                let three_start = seq![ESCAPE, '[', '3', '8', ';', '2', ';'];
                let three = three_start + ink + seq!['m'];
                lemma_code_digits(color);
                assert(seq![ESCAPE, '[', '1'] + Seq::<char>::empty() + seq!['m'] =~= one);
                lemma_code_shown(seq![ESCAPE, '[', '1'], Seq::empty());
                lemma_code_shown(two_start, color_code(color));
                lemma_code_shown(three_start, ink);
                let end_one = seq![ESCAPE, '[', '4', '9'] + Seq::<char>::empty() + seq!['m'];
                let end_two = seq![ESCAPE, '[', '3', '9'] + Seq::<char>::empty() + seq!['m'];
                let end_three = seq![ESCAPE, '[', '2', '2'] + Seq::<char>::empty() + seq!['m'];
                lemma_code_shown(seq![ESCAPE, '[', '4', '9'], Seq::empty());
                lemma_code_shown(seq![ESCAPE, '[', '3', '9'], Seq::empty());
                lemma_code_shown(seq![ESCAPE, '[', '2', '2'], Seq::empty());
                let whole = one + two + three + label + end_one + end_two + end_three;
                assert(badge(styled, team) =~= whole);
                lemma_shown_concat(one, two, false);
                lemma_shown_concat(one + two, three, false);
                lemma_shown_concat(one + two + three, label, false);
                lemma_shown_concat(one + two + three + label, end_one, false);
                lemma_shown_concat(one + two + three + label + end_one, end_two, false);
                lemma_shown_concat(one + two + three + label + end_one + end_two, end_three, false);
                assert(visible(whole) =~= visible(label));
            }
        },
    }
}

/// The colour of a team changes nothing of what a terminal shows.
pub proof fn law_team_color_is_invisible(styled: bool, team: Seq<char>, text: Seq<char>)
    ensures
        visible(in_team_color(styled, team, text)) == visible(text),
        styled || closed(text) ==> closed(in_team_color(styled, team, text)),
{
    match team_color(team) {
        None => {
            reveal_strlit("1");
            law_style_is_invisible(styled, "1"@, text);
        },
        Some(color) => {
            if styled {
                let bright = brightened(color);
                reveal_strlit("\x1b[38;2;");
                reveal_strlit("m");
                reveal_strlit("\x1b[39m");
                let start = "\x1b[38;2;"@ + color_code(bright) + seq!['m'];
                let end = seq![ESCAPE, '[', '3', '9'] + Seq::<char>::empty() + seq!['m'];
                lemma_code_digits(bright);
                lemma_code_shown("\x1b[38;2;"@, color_code(bright));
                lemma_code_shown(seq![ESCAPE, '[', '3', '9'], Seq::empty());
                assert(in_team_color(styled, team, text) =~= start + text + end);
                lemma_shown_concat(start, text, false);
                lemma_shown_concat(start + text, end, false);
                assert(visible(start + text + end) =~= visible(text));
            }
        },
    }
}

/// Brightening keeps the proportions of a dark colour: each part is to 150 as it was to the
/// strongest part, but for rounding. A bright colour stays, and black becomes a grey.
pub proof fn law_brightening_keeps_proportions(color: Rgb)
    ensures
        ({
            let most = strongest(color) as int;
            let bright = brightened(color);
            &&& color.0 <= most && color.1 <= most && color.2 <= most
            &&& color.0 == most || color.1 == most || color.2 == most
            &&& most >= 150 ==> bright == color
            &&& most == 0 ==> bright.0 == 160 && bright.1 == 160 && bright.2 == 160
            &&& 0 < most < 150 ==> {
                &&& -most <= 2 * (bright.0 * most) - 300 * color.0 <= most
                &&& -most <= 2 * (bright.1 * most) - 300 * color.1 <= most
                &&& -most <= 2 * (bright.2 * most) - 300 * color.2 <= most
            }
        }),
{
    let most = strongest(color) as int;
    if 0 < most < 150 {
        lemma_raised_range(color.0 as int, most);
        lemma_raised_range(color.1 as int, most);
        lemma_raised_range(color.2 as int, most);
        lemma_raised_near(color.0 as int, most);
        lemma_raised_near(color.1 as int, most);
        lemma_raised_near(color.2 as int, most);
    }
}

proof fn lemma_raised_near(part: int, most: int)
    requires
        0 <= part <= most,
        1 <= most < 150,
    ensures
        -most <= 2 * (raised(part, most) * most) - 300 * part <= most,
{
    let twice = 2 * most;
    let sum = 300 * part + most;
    let rounded = sum / twice;
    assert(twice * rounded <= sum < twice * rounded + twice) by (nonlinear_arith)
        requires
            twice > 0,
            rounded == sum / twice,
    ;
    assert(twice * rounded == 2 * (rounded * most)) by (nonlinear_arith)
        requires
            twice == 2 * most,
    ;
    if rounds_down(part, most) {
        assert(twice * rounded == sum) by (nonlinear_arith)
            requires
                twice == 2 * most,
                sum == 300 * part + most,
                1 <= most < 150,
                rounded == sum / twice,
                (most % 36 == 0 && (12 * part == 5 * most || 4 * part == 3 * most)) || (most == 140
                    && part == 119),
        {
            if 12 * part == 5 * most && most % 36 == 0 {
                assert(sum == 63 * twice);
                assert(sum / twice == 63);
            } else if 4 * part == 3 * most && most % 36 == 0 {
                assert(sum == 113 * twice);
                assert(sum / twice == 113);
            } else {
                assert(sum == 128 * twice);
                assert(sum / twice == 128);
            }
        }
        assert((rounded - 1) * most == rounded * most - most) by (nonlinear_arith);
    }
}

/// The writing on a badge is white where every part of its colour is dark, black where every
/// part is light, and never turns white on a lighter colour. Green counts most and blue
/// least.
pub proof fn law_ink_is_readable(color: Rgb, lighter: Rgb)
    ensures
        color.0 <= 128 && color.1 <= 128 && color.2 <= 128 ==> badge_ink(color) == "255;255;255"@,
        color.0 > 128 && color.1 > 128 && color.2 > 128 ==> badge_ink(color) == "0;0;0"@,
        color.0 <= lighter.0 && color.1 <= lighter.1 && color.2 <= lighter.2 && badge_ink(color)
            == "0;0;0"@ ==> badge_ink(lighter) == "0;0;0"@,
        color.1 >= 220 ==> badge_ink(color) == "0;0;0"@,
        color.1 == 0 ==> badge_ink(color) == "255;255;255"@,
{
    reveal_strlit("0;0;0");
    reveal_strlit("255;255;255");
    assert("0;0;0"@.len() != "255;255;255"@.len());
}

/// Names of two letters are spread, and every other name stays.
pub proof fn law_names_on_badges(team: Seq<char>)
    ensures
        team == seq!['K', 'T'] ==> badge_name(team) == seq!['K', ' ', 'T'],
        team == seq!['L', 'G'] ==> badge_name(team) == seq!['L', ' ', 'G'],
        team == seq!['N', 'C'] ==> badge_name(team) == seq!['N', ' ', 'C'],
        team != seq!['K', 'T'] && team != seq!['L', 'G'] && team != seq!['N', 'C'] ==> badge_name(
            team,
        ) == team,
        badge_label(team) == seq![' '] + badge_name(team) + seq![' '],
{
    reveal_strlit("KT");
    reveal_strlit("LG");
    reveal_strlit("NC");
    reveal_strlit("K T");
    reveal_strlit("L G");
    reveal_strlit("N C");
    reveal_strlit(" ");
    assert("KT"@ =~= seq!['K', 'T']);
    assert("LG"@ =~= seq!['L', 'G']);
    assert("NC"@ =~= seq!['N', 'C']);
    assert("K T"@ =~= seq!['K', ' ', 'T']);
    assert("L G"@ =~= seq!['L', ' ', 'G']);
    assert("N C"@ =~= seq!['N', ' ', 'C']);
    assert(" "@ =~= seq![' ']);
    assert(seq!['K', 'T'][0] != seq!['L', 'G'][0]);
    assert(seq!['K', 'T'][0] != seq!['N', 'C'][0]);
    assert(seq!['L', 'G'][0] != seq!['N', 'C'][0]);
}

/// A badge stands on the colour of its team as it is, with a readable ink; a text in the
/// colour of a team takes the brightened one. Without a colour both are bold, and without
/// styles both are the text alone.
pub proof fn law_team_colours_are_used(team: Seq<char>, text: Seq<char>)
    ensures
        team_color(team) matches Some(color) ==> {
            &&& badge(true, team) == "\x1b[1m\x1b[48;2;"@ + decimal(color.0 as nat) + seq![';']
                + decimal(color.1 as nat) + seq![';'] + decimal(color.2 as nat) + "m\x1b[38;2;"@
                + badge_ink(color) + "m"@ + badge_label(team) + "\x1b[49m\x1b[39m\x1b[22m"@
            &&& badge(false, team) == badge_label(team)
            &&& ({
                let bright = brightened(color);
                in_team_color(true, team, text) == "\x1b[38;2;"@ + decimal(bright.0 as nat) + seq![
                    ';',
                ] + decimal(bright.1 as nat) + seq![';'] + decimal(bright.2 as nat) + "m"@ + text
                    + "\x1b[39m"@
            })
            &&& in_team_color(false, team, text) == text
        },
        team_color(team) is None ==> {
            &&& badge(true, team) == in_bold(true, badge_label(team))
            &&& in_team_color(true, team, text) == in_bold(true, text)
            &&& badge(false, team) == badge_label(team)
            &&& in_team_color(false, team, text) == text
        },
{
    reveal_strlit(";");
    assert(";"@ =~= seq![';']);
    if team_color(team) is Some {
        let color = team_color(team)->0;
        let bright = brightened(color);
        assert(badge(true, team) =~= "\x1b[1m\x1b[48;2;"@ + decimal(color.0 as nat) + seq![';']
            + decimal(color.1 as nat) + seq![';'] + decimal(color.2 as nat) + "m\x1b[38;2;"@
            + badge_ink(color) + "m"@ + badge_label(team) + "\x1b[49m\x1b[39m\x1b[22m"@);
        assert(in_team_color(true, team, text) =~= "\x1b[38;2;"@ + decimal(bright.0 as nat) + seq![
            ';',
        ] + decimal(bright.1 as nat) + seq![';'] + decimal(bright.2 as nat) + "m"@ + text
            + "\x1b[39m"@);
    }
}

} // verus!
