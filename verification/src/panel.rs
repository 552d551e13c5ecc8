//! The panel of one game.
use vstd::prelude::*;

use crate::card::{Bases, GameCard};
use crate::competition::Competition;
use crate::number::{write_decimal, write_signed};
use crate::players::Side;
use crate::style::{base_dot, bold, cyan, dim, dots, green, DotColor};
use crate::teams::{team_badge, team_fg};
use crate::text::{chars_of, repeat_char, same_text, trim_end};
use crate::width::{fit, pad_left_visual, pad_right_visual, visual_width};
#[allow(unused_imports)]
use crate::{
    card::{counted_as, texts},
    naver::GameState,
    number::{decimal, signed_decimal},
    plain::{law_plain_card_fits, plain_card},
    style::{base_mark, dot_row, in_bold, in_cyan, in_dim, in_green, lemma_dim_shown},
    teams::{badge, in_team_color},
    text::{
        blanks, displayed, law_displayed_is_one_line, lemma_blanks_trimmed, lemma_trimmed_end,
        on_one_line, repeated, trimmed_end,
    },
    width::{
        adds_up, apart, closed, columns, fits, fitted, is_plain, lemma_plain_concat,
        lemma_plain_repeated, lemma_shown_concat, lemma_shown_unescaped,
        lemma_trim_keeps_sequences, less, padded_left, padded_right, plain_columns,
        plain_width, shown, unicode_str_width, visible, ESCAPE,
    },
};

verus! {

/// The columns of a team's name in the table of innings.
pub const TEAM_COL: usize = 7;

/// The row of a team's runs, with a mark for the team at bat.
pub open spec fn score_line(styled: bool, team: Seq<char>, runs: int, attacking: bool) -> Seq<
    char,
> {
    "  "@ + padded_right(badge(styled, team), 8) + "  "@ + padded_left(
        in_team_color(styled, team, in_bold(styled, signed_decimal(runs))),
        3,
    ) + (if attacking {
        "  "@ + in_cyan(styled, "◀ 공격"@)
    } else {
        ""@
    })
}

/// Draws the row of a team's runs.
pub fn score_row(styled: bool, team: &str, score: i32, attacking: bool) -> (row: String)
    ensures
        row@ == score_line(styled, team@, score as int, attacking),
{
    let mark = pad_right_visual(&team_badge(styled, team), 8);
    let runs = pad_left_visual(&team_fg(styled, team, &bold(styled, &write_signed(score))), 3);
    let marker = if attacking {
        "  ".to_owned().concat(&cyan(styled, "◀ 공격"))
    } else {
        "".to_owned()
    };
    "  ".to_owned().concat(&mark).concat("  ").concat(&runs).concat(&marker)
}

/// A row of a label and a value.
pub open spec fn labelled(styled: bool, label: Seq<char>, value: Seq<char>) -> Seq<char> {
    "  "@ + in_dim(styled, padded_right(label, 4)) + "  "@ + value
}

/// Draws a row of a label and a value.
pub fn label_value(styled: bool, label: &str, value: &str) -> (row: String)
    ensures
        row@ == labelled(styled, label@, value@),
{
    "  ".to_owned().concat(&dim(styled, &pad_right_visual(label, 4))).concat("  ").concat(value)
}

/// The rows of the diamond.
pub open spec fn diamond(styled: bool, bases: Bases) -> Seq<Seq<char>> {
    seq![
        "       "@ + base_mark(styled, bases.second) + "       "@,
        in_dim(styled, "     ╱   ╲     "@),
        "   "@ + base_mark(styled, bases.third) + "       "@ + base_mark(styled, bases.first)
            + "   "@,
        in_dim(styled, "     ╲   ╱     "@),
        in_dim(styled, "       ⌂       "@),
    ]
}

/// Draws the diamond.
pub fn diamond_lines(styled: bool, bases: &Bases) -> (rows: [String; 5])
    ensures
        texts(rows@) == diamond(styled, *bases),
{
    let rows = [
        "       ".to_owned().concat(&base_dot(styled, bases.second)).concat("       "),
        dim(styled, "     ╱   ╲     "),
        "   ".to_owned().concat(&base_dot(styled, bases.third)).concat("       ").concat(
            &base_dot(styled, bases.first),
        ).concat("   "),
        dim(styled, "     ╲   ╱     "),
        dim(styled, "       ⌂       "),
    ];
    assert(texts(rows@) =~= diamond(styled, *bases));
    rows
}

/// The rows of the counts.
pub open spec fn count_rows(styled: bool, balls: nat, strikes: nat, outs: nat) -> Seq<Seq<char>> {
    seq![
        Seq::empty(),
        "B  "@ + dot_row(styled, balls, 3, DotColor::Green),
        "S  "@ + dot_row(styled, strikes, 2, DotColor::Yellow),
        "O  "@ + dot_row(styled, outs, 2, DotColor::Red),
        Seq::empty(),
    ]
}

/// Draws the counts of balls, strikes and outs.
pub fn count_lines(styled: bool, ball: usize, strike: usize, out: usize) -> (rows: [String; 5])
    ensures
        texts(rows@) == count_rows(styled, ball as nat, strike as nat, out as nat),
{
    let rows = [
        String::new(),
        "B  ".to_owned().concat(&dots(styled, ball, 3, DotColor::Green)),
        "S  ".to_owned().concat(&dots(styled, strike, 2, DotColor::Yellow)),
        "O  ".to_owned().concat(&dots(styled, out, 2, DotColor::Red)),
        String::new(),
    ];
    assert(texts(rows@) =~= count_rows(styled, ball as nat, strike as nat, out as nat));
    rows
}

/// `text` at the right of two places.
pub open spec fn in_two_places(text: Seq<char>) -> Seq<char> {
    blanks(less(2, text.len())) + text
}

fn align_two(text: &str) -> (cell: String)
    ensures
        cell@ == in_two_places(text@),
{
    let count = chars_of(text).len();
    repeat_char(' ', if count < 2 { 2 - count } else { 0 }).concat(text)
}

/// `cells` with a blank between two of them.
pub open spec fn joined(cells: Seq<Seq<char>>) -> Seq<char>
    decreases cells.len(),
{
    if cells.len() == 0 {
        Seq::empty()
    } else if cells.len() == 1 {
        cells[0]
    } else {
        joined(cells.drop_last()) + " "@ + cells.last()
    }
}

/// The numbers of the first `count` innings.
pub open spec fn inning_numbers(count: nat) -> Seq<Seq<char>> {
    Seq::new(count, |i: int| in_two_places(decimal((i + 1) as nat)))
}

fn inning_header(count: usize) -> (header: String)
    ensures
        header@ == joined(inning_numbers(count as nat)),
{
    let mut header = String::new();
    let mut i: usize = 0;
    while i < count
        invariant
            i <= count,
            header@ == joined(inning_numbers(i as nat)),
        decreases count - i,
    {
        let ghost cells = inning_numbers((i + 1) as nat);
        assert(cells.drop_last() == inning_numbers(i as nat));
        if i > 0 {
            header.append(" ");
        }
        i += 1;
        header.append(&align_two(&write_decimal(i as u64)));
        assert(header@ =~= joined(cells));
    }
    header
}

/// The runs in an inning, where they are told.
pub open spec fn score_cell(styled: bool, scores: Seq<Seq<char>>, i: int) -> Seq<char> {
    if i < scores.len() && scores[i] != "-"@ {
        in_two_places(scores[i])
    } else {
        in_dim(styled, " -"@)
    }
}

/// The cells of the runs in the first `count` innings.
pub open spec fn score_cell_row(styled: bool, scores: Seq<Seq<char>>, count: nat) -> Seq<
    Seq<char>,
> {
    Seq::new(count, |i: int| score_cell(styled, scores, i))
}

/// Draws the runs in the first `innings` innings.
pub fn score_cells(styled: bool, scores: &Vec<String>, innings: usize) -> (row: String)
    ensures
        row@ == joined(score_cell_row(styled, texts(scores@), innings as nat)),
{
    let mut row = String::new();
    let ghost given = texts(scores@);
    let mut i: usize = 0;
    while i < innings
        invariant
            i <= innings,
            given == texts(scores@),
            row@ == joined(score_cell_row(styled, given, i as nat)),
        decreases innings - i,
    {
        let ghost cells = score_cell_row(styled, given, (i + 1) as nat);
        assert(cells.drop_last() == score_cell_row(styled, given, i as nat));
        if i > 0 {
            row.append(" ");
        }
        let cell = if i < scores.len() && !same_text(&scores[i], "-") {
            align_two(&scores[i])
        } else {
            dim(styled, " -")
        };
        row.append(&cell);
        i += 1;
        assert(row@ =~= joined(cells));
    }
    row
}

/// The innings that a table of `width` columns has room for: twelve at most, one at
/// least.
pub open spec fn inning_room(width: nat) -> nat {
    let room = less(width, 9) / 3;
    if room < 1 {
        1
    } else if room > 12 {
        12
    } else {
        room
    }
}

/// The innings to show of two lines of runs.
pub open spec fn innings_shown(away: nat, home: nat, width: nat) -> nat {
    let played = if away >= home {
        away
    } else {
        home
    };
    if played <= inning_room(width) {
        played
    } else {
        inning_room(width)
    }
}

/// The row of a team in the table of innings.
pub open spec fn team_line(
    styled: bool,
    team: Seq<char>,
    scores: Seq<Seq<char>>,
    innings: nat,
) -> Seq<char> {
    "  "@ + in_team_color(styled, team, padded_right(team, 7)) + " "@ + joined(
        score_cell_row(styled, scores, innings),
    )
}

/// The table of the runs by inning.
#[verifier::opaque]
pub open spec fn inning_rows(styled: bool, card: GameCard, width: nat) -> Seq<Seq<char>> {
    let (away, home) = card.lines();
    if away.len() == 0 && home.len() == 0 {
        seq![in_dim(styled, "  회"@), in_dim(styled, "  스코어보드 대기 중"@)]
    } else {
        let innings = innings_shown(away.len(), home.len(), width);
        seq![
            "  "@ + in_dim(styled, padded_right("회"@, 7)) + " "@ + in_dim(
                styled,
                joined(inning_numbers(innings)),
            ),
            team_line(styled, card.game.away_team_name@, away, innings),
            team_line(styled, card.game.home_team_name@, home, innings),
        ]
    }
}

fn team_row(styled: bool, team: &str, scores: &Vec<String>, innings: usize) -> (row: String)
    ensures
        row@ == team_line(styled, team@, texts(scores@), innings as nat),
{
    "  ".to_owned().concat(&team_fg(styled, team, &pad_right_visual(team, TEAM_COL))).concat(
        " ",
    ).concat(&score_cells(styled, scores, innings))
}

/// Draws the table of the runs by inning.
pub fn inning_table(styled: bool, card: &GameCard, width: usize) -> (rows: Vec<String>)
    ensures
        texts(rows@) == inning_rows(styled, *card, width as nat),
{
    proof {
        reveal(inning_rows);
    }
    let (away, home) = card.inning_lines();
    if away.len() == 0 && home.len() == 0 {
        let rows = vec![dim(styled, "  회"), dim(styled, "  스코어보드 대기 중")];
        assert(texts(rows@) =~= inning_rows(styled, *card, width as nat));
        return rows;
    }
    let free: usize = if width > TEAM_COL + 2 { width - (TEAM_COL + 2) } else { 0 };
    let mut room: usize = free / 3;
    if room < 1 {
        room = 1;
    }
    if room > 12 {
        room = 12;
    }
    let mut innings: usize = if away.len() >= home.len() { away.len() } else { home.len() };
    if innings > room {
        innings = room;
    }
    let rows = vec![
        "  ".to_owned().concat(&dim(styled, &pad_right_visual("회", TEAM_COL))).concat(" ").concat(
            &dim(styled, &inning_header(innings)),
        ),
        team_row(styled, &card.game.away_team_name, &away, innings),
        team_row(styled, &card.game.home_team_name, &home, innings),
    ];
    assert(texts(rows@) =~= inning_rows(styled, *card, width as nat));
    rows
}

/// Whether `line` takes `width` columns: as it is measured, or by its characters where it
/// is plain.
pub open spec fn spans(line: Seq<char>, width: nat) -> bool {
    ||| columns(line) == width
    ||| is_plain(visible(line)) && plain_width(visible(line)) == width
}

/// A character of one column is a plain text of one column.
proof fn lemma_one_column(text: Seq<char>, c: char)
    requires
        text =~= seq![c],
        plain_columns(c) == Some(1nat),
    ensures
        is_plain(text),
        plain_width(text) == 1,
        !text.contains(ESCAPE),
{
    reveal_with_fuel(plain_width, 2);
}

/// A border spans its corners and what is between them.
proof fn lemma_border_spans(styled: bool, left: Seq<char>, right: Seq<char>, inner: nat)
    requires
        is_plain(left) && plain_width(left) == 1 && !left.contains(ESCAPE),
        is_plain(right) && plain_width(right) == 1 && !right.contains(ESCAPE),
    ensures
        spans(border(styled, left, right, inner), inner + 2),
{
    let middle = repeated('─', inner);
    let line = left + middle + right;
    lemma_plain_repeated('─', inner);
    lemma_plain_concat(left, middle);
    lemma_plain_concat(left + middle, right);
    assert forall|i: int| 0 <= i < line.len() implies line[i] != ESCAPE by {
        if i < left.len() {
            assert(left.contains(left[i]));
        } else if i >= left.len() + inner {
            assert(right.contains(right[i - left.len() - inner]));
        }
    }
    lemma_dim_shown(styled, line);
}

/// The title in the top border: as it is, or else shortened to leave a column.
pub open spec fn border_title(title: Seq<char>, inner: nat) -> Seq<char> {
    let raw = " "@ + title + " "@;
    if columns(raw) > less(inner, 1) {
        trimmed_end(fitted(raw, less(inner, 1)))
    } else {
        raw
    }
}

/// The top border of a panel with `inner` columns inside.
pub open spec fn top_line(styled: bool, title: Seq<char>, inner: nat) -> Seq<char> {
    let title = border_title(title, inner);
    in_dim(styled, "┌─"@) + title + in_dim(
        styled,
        repeated('─', less(inner, columns(title) + 1)),
    ) + in_dim(styled, "┐"@)
}

/// What is shown of a text that starts with a blank starts with it.
proof fn lemma_blank_shown_first(text: Seq<char>)
    requires
        text.len() > 0 ==> text[0] == ' ',
    ensures
        visible(text).len() > 0 ==> visible(text)[0] == ' ',
{
}

/// A title that fits stays within `limit` columns, and can stand behind a corner.
proof fn lemma_title_fits(raw: Seq<char>, corner: Seq<char>, limit: nat)
    requires
        raw.len() > 0 && raw[0] == ' ',
        fits(raw, limit),
        ({
            let line = fitted(raw, limit);
            let title = trimmed_end(line);
            &&& closed(line)
            &&& columns(line) == limit
            &&& is_plain(visible(displayed(raw))) ==> is_plain(visible(line)) && plain_width(
                visible(line),
            ) == columns(line)
            &&& is_plain(visible(title)) ==> columns(title) == plain_width(visible(title))
        }),
    ensures
        ({
            let title = trimmed_end(fitted(raw, limit));
            &&& closed(title)
            &&& columns(title) <= limit
            &&& apart(corner, visible(title))
        }),
{
    let short = displayed(raw);
    let line = fitted(raw, limit);
    let title = trimmed_end(line);
    lemma_trim_keeps_sequences(line);
    if columns(short) <= limit {
        law_displayed_is_one_line(raw);
        lemma_blanks_trimmed(short, less(limit, columns(short)));
        lemma_trimmed_end(raw.map_values(|c: char| on_one_line(c)));
        assert(title == short);
        lemma_blank_shown_first(short);
    } else {
        lemma_trimmed_end(line);
        let rest = line.skip(title.len() as int);
        assert(title + rest =~= line);
        lemma_shown_concat(title, rest, false);
        lemma_plain_concat(visible(title), shown(rest, false));
    }
}

/// A top border spans its corners and what is between them, where its title leaves a
/// column.
proof fn lemma_top_spans(styled: bool, title: Seq<char>, inner: nat)
    requires
        closed(title),
        adds_up(visible(title)),
        apart("┌─"@, visible(title)),
        columns(title) + 1 <= inner,
    ensures
        columns(
            in_dim(styled, "┌─"@) + title + in_dim(
                styled,
                repeated('─', less(inner, columns(title) + 1)),
            ) + in_dim(styled, "┐"@),
        ) == inner + 2,
{
    let rest = less(inner, columns(title) + 1);
    let line = repeated('─', rest);
    let after = line + "┐"@;
    let start = in_dim(styled, "┌─"@);
    let middle = in_dim(styled, line);
    let end = in_dim(styled, "┐"@);
    reveal_strlit("┌─");
    reveal_strlit("┐");
    reveal_with_fuel(plain_width, 3);
    lemma_one_column("┐"@, '┐');
    lemma_plain_repeated('─', rest);
    lemma_plain_concat(line, "┐"@);
    lemma_dim_shown(styled, "┌─"@);
    lemma_dim_shown(styled, line);
    lemma_dim_shown(styled, "┐"@);
    lemma_shown_concat(start, title, false);
    lemma_shown_concat(start + title, middle, false);
    lemma_shown_concat(start + title + middle, end, false);
    assert(visible(start + title + middle + end) =~= "┌─"@ + visible(title) + after);
    assert("┌─"@ =~= seq!['┌', '─']);
    assert(seq!['┌', '─'].drop_last() =~= seq!['┌']);
    assert(plain_width("┌─"@) == 2);
    assert(unicode_str_width("┌─"@ + visible(title) + after) == 2 + columns(title) + rest + 1);
}

/// Draws the top border of a panel.
pub fn top_border(styled: bool, title: &str, inner: usize) -> (line: String)
    ensures
        line@ == top_line(styled, title@, inner as nat),
        inner >= 1 && fits(" "@ + title@ + " "@, (inner - 1) as nat) ==> columns(line@) == inner
            + 2,
{
    let raw = " ".to_owned().concat(title).concat(" ");
    let limit: usize = if inner > 0 { inner - 1 } else { 0 };
    let ghost whole = raw@;
    let ghost exact = inner >= 1 && fits(whole, limit as nat);
    proof {
        reveal_strlit(" ");
        lemma_blank_shown_first(whole);
    }
    let title = if visual_width(&raw) > limit { trim_end(&fit(&raw, limit)) } else { raw };
    let taken = visual_width(&title);
    let rest: usize = if taken < inner { inner - taken - 1 } else { 0 };
    proof {
        if exact {
            if columns(whole) > limit {
                lemma_title_fits(whole, "┌─"@, limit as nat);
            }
            lemma_top_spans(styled, title@, inner as nat);
        }
    }
    dim(styled, "┌─").concat(&title).concat(&dim(styled, &repeat_char('─', rest))).concat(
        &dim(styled, "┐"),
    )
}

/// A border between `left` and `right`.
pub open spec fn border(styled: bool, left: Seq<char>, right: Seq<char>, inner: nat) -> Seq<char> {
    in_dim(styled, left + repeated('─', inner) + right)
}

/// Draws the border above the foot of a panel.
pub fn mid_border(styled: bool, inner: usize) -> (line: String)
    ensures
        line@ == border(styled, "├"@, "┤"@, inner as nat),
        spans(line@, inner as nat + 2),
{
    proof {
        reveal_strlit("├");
        reveal_strlit("┤");
        lemma_one_column("├"@, '├');
        lemma_one_column("┤"@, '┤');
        lemma_border_spans(styled, "├"@, "┤"@, inner as nat);
    }
    dim(styled, &"├".to_owned().concat(&repeat_char('─', inner)).concat("┤"))
}

/// Draws the bottom border of a panel.
pub fn bottom_border(styled: bool, inner: usize) -> (line: String)
    ensures
        line@ == border(styled, "└"@, "┘"@, inner as nat),
        spans(line@, inner as nat + 2),
{
    proof {
        reveal_strlit("└");
        reveal_strlit("┘");
        lemma_one_column("└"@, '└');
        lemma_one_column("┘"@, '┘');
        lemma_border_spans(styled, "└"@, "┘"@, inner as nat);
    }
    dim(styled, &"└".to_owned().concat(&repeat_char('─', inner)).concat("┘"))
}

/// The state of a game in the title of its panel.
pub open spec fn status_line(styled: bool, card: GameCard) -> Seq<char> {
    if card.game.started() {
        in_green(styled, "● LIVE"@) + " "@ + in_dim(styled, card.status_words())
    } else if card.game.finished() {
        in_dim(styled, card.status_words())
    } else {
        in_cyan(styled, card.status_words())
    }
}

/// Words the state of a game in the title of its panel.
pub fn status_text(styled: bool, card: &GameCard) -> (line: String)
    ensures
        line@ == status_line(styled, *card),
{
    let label = card.header_status();
    if card.game.is_started() {
        green(styled, "● LIVE").concat(" ").concat(&dim(styled, &label))
    } else if card.game.is_finished() {
        dim(styled, &label)
    } else {
        cyan(styled, &label)
    }
}

fn push_line(lines: &mut Vec<String>, line: String)
    ensures
        final(lines)@ == old(lines)@.push(line),
        texts(final(lines)@) == texts(old(lines)@).push(line@),
{
    lines.push(line);
    assert(texts(lines@) =~= texts(old(lines)@).push(line@));
}

/// The start of `lines`, of `count` lines at most.
pub open spec fn first_lines(lines: Seq<Seq<char>>, count: nat) -> Seq<Seq<char>> {
    if lines.len() <= count {
        lines
    } else {
        lines.take(count as int)
    }
}

/// `count` lines: the first of `lines`, and copies of `filler` where there are fewer.
pub open spec fn resized(lines: Seq<Seq<char>>, count: nat, filler: Seq<char>) -> Seq<Seq<char>> {
    first_lines(lines, count) + Seq::new(less(count, lines.len()), |i: int| filler)
}

/// The line of a play.
pub open spec fn play_line(styled: bool, play: Seq<char>) -> Seq<char> {
    "  "@ + in_dim(styled, "▸"@) + " "@ + play
}

/// The rows of the diamond with the counts beside them.
pub open spec fn field_rows(styled: bool, card: GameCard) -> Seq<Seq<char>> {
    let bases = diamond(styled, card.runners());
    let counts = count_rows(
        styled,
        counted_as(card.told_field(|state: GameState| state.ball)),
        counted_as(card.told_field(|state: GameState| state.strike)),
        counted_as(card.told_field(|state: GameState| state.out)),
    );
    Seq::new(5, |i: int| bases[i] + "  "@ + counts[i])
}

/// What stands above the plays in a panel.
#[verifier::opaque]
pub open spec fn panel_head(styled: bool, card: GameCard, width: nat) -> Seq<Seq<char>> {
    seq![
        score_line(
            styled,
            card.game.away_team_name@,
            card.away_runs(),
            card.attack() == Some(Side::Away),
        ),
        score_line(
            styled,
            card.game.home_team_name@,
            card.home_runs(),
            card.attack() == Some(Side::Home),
        ),
        Seq::empty(),
    ] + field_rows(styled, card) + seq![
        Seq::empty(),
        labelled(styled, "타자"@, card.batter_text(styled)),
        labelled(styled, "투수"@, card.pitcher_text(styled)),
        Seq::empty(),
    ] + inning_rows(styled, card, width) + seq![Seq::empty(), in_dim(styled, "─ 최근 플레이 ─"@)]
}

/// The plays that a panel of `height` lines is asked for: those that fit, but one at
/// least.
pub open spec fn plays_wanted(height: nat, head: nat) -> nat {
    if height > head {
        (height - head) as nat
    } else {
        1
    }
}

/// What stands in a panel of `height` lines.
#[verifier::opaque]
pub open spec fn panel_lines(styled: bool, card: GameCard, width: nat, height: nat) -> Seq<
    Seq<char>,
> {
    let head = panel_head(styled, card, width);
    let plays = card.plays(plays_wanted(height, head.len()));
    first_lines(head + plays.map_values(|play: Seq<char>| play_line(styled, play)), height)
}

#[verifier::spinoff_prover]
#[verifier::rlimit(40)]
fn draw_head(styled: bool, card: &GameCard, width: usize) -> (body: Vec<String>)
    ensures
        texts(body@) == panel_head(styled, *card, width as nat),
{
    proof {
        reveal(panel_head);
    }
    let (away_score, home_score) = card.score();
    let attack = card.attack_side();
    let away_attacks = match attack {
        Some(Side::Away) => true,
        _ => false,
    };
    let home_attacks = match attack {
        Some(Side::Home) => true,
        _ => false,
    };
    let mut body: Vec<String> = Vec::new();
    assert(texts(body@) =~= Seq::<Seq<char>>::empty());
    push_line(&mut body, score_row(styled, &card.game.away_team_name, away_score, away_attacks));
    push_line(&mut body, score_row(styled, &card.game.home_team_name, home_score, home_attacks));
    push_line(&mut body, String::new());
    let ghost top = texts(body@);

    let diamond = diamond_lines(styled, &card.bases());
    let count = count_lines(styled, card.balls(), card.strikes(), card.outs());
    let ghost rows = field_rows(styled, *card);
    let mut index: usize = 0;
    assert(top + rows.take(0) =~= top);
    while index < 5
        invariant
            index <= 5,
            rows == field_rows(styled, *card),
            texts(diamond@) == crate::panel::diamond(styled, card.runners()),
            texts(count@) == count_rows(
                styled,
                counted_as(card.told_field(|state: GameState| state.ball)),
                counted_as(card.told_field(|state: GameState| state.strike)),
                counted_as(card.told_field(|state: GameState| state.out)),
            ),
            texts(body@) == top + rows.take(index as int),
        decreases 5 - index,
    {
        assert(texts(diamond@)[index as int] == diamond@[index as int]@);
        assert(texts(count@)[index as int] == count@[index as int]@);
        let row = diamond[index].clone().concat("  ").concat(&count[index]);
        push_line(&mut body, row);
        index += 1;
        assert(texts(body@) =~= top + rows.take(index as int));
    }
    assert(rows.take(5) =~= rows);
    push_line(&mut body, String::new());
    push_line(&mut body, label_value(styled, "타자", &card.current_batter(styled)));
    push_line(&mut body, label_value(styled, "투수", &card.current_pitcher(styled)));
    push_line(&mut body, String::new());
    let ghost above = texts(body@);
    let mut table = inning_table(styled, card, width);
    let ghost innings = texts(table@);
    body.append(&mut table);
    assert(texts(body@) =~= above + innings);
    push_line(&mut body, String::new());
    push_line(&mut body, dim(styled, "─ 최근 플레이 ─"));
    assert(texts(body@) =~= panel_head(styled, *card, width as nat));
    body
}

/// Draws what stands in a panel, `height` lines at most.
#[verifier::spinoff_prover]
#[verifier::rlimit(40)]
pub fn panel_body(styled: bool, card: &GameCard, width: usize, height: usize) -> (body: Vec<String>)
    ensures
        texts(body@) == panel_lines(styled, *card, width as nat, height as nat),
        body@.len() <= height,
{
    proof {
        reveal(panel_lines);
    }
    let mut body = draw_head(styled, card, width);
    let ghost head = texts(body@);
    let remaining: usize = if height > body.len() { height - body.len() } else { 1 };
    let plays = card.recent_plays(remaining);
    let ghost lines = texts(plays@).map_values(|play: Seq<char>| play_line(styled, play));
    let mut i: usize = 0;
    assert(head + lines.take(0) =~= head);
    while i < plays.len()
        invariant
            i <= plays@.len(),
            lines == texts(plays@).map_values(|play: Seq<char>| play_line(styled, play)),
            texts(body@) == head + lines.take(i as int),
        decreases plays@.len() - i,
    {
        push_line(
            &mut body,
            "  ".to_owned().concat(&dim(styled, "▸")).concat(" ").concat(&plays[i]),
        );
        i += 1;
        assert(texts(body@) =~= head + lines.take(i as int));
    }
    assert(lines.take(i as int) =~= lines);
    let ghost all = body@;
    if body.len() > height {
        body.truncate(height);
        assert(texts(body@) =~= texts(all).take(height as int));
    }
    body
}

/// A line between the borders of a panel with `inner` columns inside.
pub open spec fn framed(styled: bool, line: Seq<char>, inner: nat) -> Seq<char> {
    in_dim(styled, "│"@) + " "@ + fitted(line, less(inner, 2)) + " "@ + in_dim(styled, "│"@)
}

/// The sides of a frame and the blanks beside them take four columns.
proof fn lemma_frame_adds_four(styled: bool, line: Seq<char>)
    requires
        closed(line),
        adds_up(visible(line)),
    ensures
        columns(in_dim(styled, "│"@) + " "@ + line + " "@ + in_dim(styled, "│"@)) == columns(line)
            + 4,
{
    let side = in_dim(styled, "│"@);
    let before = "│"@ + " "@;
    let after = " "@ + "│"@;
    reveal_strlit("│");
    reveal_strlit(" ");
    lemma_one_column("│"@, '│');
    lemma_one_column(" "@, ' ');
    lemma_plain_concat("│"@, " "@);
    lemma_plain_concat(" "@, "│"@);
    lemma_dim_shown(styled, "│"@);
    lemma_shown_unescaped(" "@);
    lemma_shown_concat(side, " "@, false);
    lemma_shown_concat(side + " "@, line, false);
    lemma_shown_concat(side + " "@ + line, " "@, false);
    lemma_shown_concat(side + " "@ + line + " "@, side, false);
    assert(visible(side + " "@ + line + " "@ + side) =~= before + visible(line) + after);
    assert(unicode_str_width(before + visible(line) + after) == 2 + columns(line) + 2);
}

fn frame(styled: bool, line: &str, inner: usize) -> (framed_line: String)
    ensures
        framed_line@ == framed(styled, line@, inner as nat),
        inner >= 2 && fits(line@, (inner - 2) as nat) ==> columns(framed_line@) == inner + 2,
{
    let middle = fit(line, if inner > 2 { inner - 2 } else { 0 });
    proof {
        if closed(line@) {
            lemma_frame_adds_four(styled, middle@);
        }
    }
    dim(styled, "│").concat(" ").concat(&middle).concat(" ").concat(&dim(styled, "│"))
}

/// Lines between the borders of a panel with `inner` columns inside.
pub open spec fn framed_rows(styled: bool, lines: Seq<Seq<char>>, inner: nat) -> Seq<Seq<char>> {
    lines.map_values(|line: Seq<char>| framed(styled, line, inner))
}

/// Frames `count` lines: those of `body`, and empty ones behind them.
fn frame_rows(styled: bool, body: &Vec<String>, count: usize, inner: usize) -> (rows: Vec<String>)
    requires
        body@.len() <= count,
    ensures
        texts(rows@) == framed_rows(
            styled,
            resized(texts(body@), count as nat, Seq::empty()),
            inner as nat,
        ),
        forall|i: int|
            0 <= i < count && inner >= 2 && fits(
                resized(texts(body@), count as nat, Seq::empty())[i],
                (inner - 2) as nat,
            ) ==> columns((#[trigger] rows@[i])@) == inner + 2,
{
    let ghost lines = resized(texts(body@), count as nat, Seq::empty());
    let ghost all = framed_rows(styled, lines, inner as nat);
    let mut rows: Vec<String> = Vec::new();
    let mut i: usize = 0;
    assert(texts(rows@) =~= all.take(0));
    while i < count
        invariant
            i <= count,
            body@.len() <= count,
            lines == resized(texts(body@), count as nat, Seq::empty()),
            all == framed_rows(styled, lines, inner as nat),
            texts(rows@) == all.take(i as int),
            rows@.len() == i,
            forall|j: int|
                0 <= j < i && inner >= 2 && fits(lines[j], (inner - 2) as nat) ==> columns(
                    (#[trigger] rows@[j])@,
                ) == inner + 2,
        decreases count - i,
    {
        let line = if i < body.len() { body[i].as_str() } else { "" };
        proof {
            reveal_strlit("");
            assert(line@ =~= lines[i as int]);
        }
        push_line(&mut rows, frame(styled, line, inner));
        i += 1;
        assert(texts(rows@) =~= all.take(i as int));
    }
    assert(all.take(count as int) =~= all);
    rows
}

/// The line below a panel: which game it shows.
pub open spec fn caption(styled: bool, card: GameCard, game_count: nat) -> Seq<char> {
    in_dim(styled, "["@ + decimal((card.index + 1) as nat) + "/"@ + decimal(game_count) + "]"@)
        + " "@ + card.game.away_team_name@ + " "@ + in_dim(
        styled,
        "vs "@ + card.game.home_team_name@,
    )
}

fn draw_caption(styled: bool, card: &GameCard, game_count: usize) -> (line: String)
    requires
        card.index < usize::MAX,
    ensures
        line@ == caption(styled, *card, game_count as nat),
{
    let position = "[".to_owned().concat(&write_decimal((card.index + 1) as u64)).concat(
        "/",
    ).concat(&write_decimal(game_count as u64)).concat("]");
    dim(styled, &position).concat(" ").concat(&card.game.away_team_name).concat(" ").concat(
        &dim(styled, &"vs ".to_owned().concat(&card.game.home_team_name)),
    )
}

/// The title of a panel: the competition and the state of the game.
pub open spec fn panel_title(styled: bool, card: GameCard, competition: Competition) -> Seq<char> {
    in_dim(styled, competition.mark()) + " · "@ + status_line(styled, card)
}

/// The line with the keys and the time.
pub open spec fn keys_line(styled: bool, now: Seq<char>) -> Seq<char> {
    in_dim(styled, "q:종료  r:새로고침 · "@ + now)
}

/// What stands below the plays in a panel: the keys and the time, and which game it
/// shows.
pub open spec fn panel_foot(
    styled: bool,
    card: GameCard,
    game_count: nat,
    width: nat,
    now: Seq<char>,
) -> Seq<Seq<char>> {
    let inner = less(width, 2);
    seq![
        border(styled, "├"@, "┤"@, inner),
        framed(styled, keys_line(styled, now), inner),
        border(styled, "└"@, "┘"@, inner),
        fitted(caption(styled, card, game_count), width),
    ]
}

fn draw_foot(
    styled: bool,
    card: &GameCard,
    game_count: usize,
    width: usize,
    now: &str,
) -> (lines: Vec<String>)
    requires
        card.index < usize::MAX,
    ensures
        texts(lines@) == panel_foot(styled, *card, game_count as nat, width as nat, now@),
        width >= 4 && fits(keys_line(styled, now@), (width - 4) as nat) && fits(
            caption(styled, *card, game_count as nat),
            width as nat,
        ) ==> forall|i: int| 0 <= i < 4 ==> spans((#[trigger] lines@[i])@, width as nat),
{
    let inner: usize = if width > 2 { width - 2 } else { 0 };
    let keys = dim(styled, &"q:종료  r:새로고침 · ".to_owned().concat(now));
    let lines = vec![
        mid_border(styled, inner),
        frame(styled, &keys, inner),
        bottom_border(styled, inner),
        fit(&draw_caption(styled, card, game_count), width),
    ];
    assert(texts(lines@) =~= panel_foot(styled, *card, game_count as nat, width as nat, now@));
    lines
}

/// Puts lines below one another, `height` lines at most.
fn stack(top: String, middle: Vec<String>, bottom: Vec<String>, height: usize) -> (lines: Vec<
    String,
>)
    ensures
        texts(lines@) == first_lines(
            seq![top@] + texts(middle@) + texts(bottom@),
            height as nat,
        ),
{
    let mut middle = middle;
    let mut bottom = bottom;
    let ghost above = texts(middle@);
    let ghost below = texts(bottom@);
    let mut lines: Vec<String> = Vec::new();
    lines.push(top);
    lines.append(&mut middle);
    lines.append(&mut bottom);
    let ghost all = texts(lines@);
    assert(all =~= seq![top@] + above + below);
    if lines.len() > height {
        lines.truncate(height);
        assert(texts(lines@) =~= all.take(height as int));
    }
    lines
}

/// The panel of a game: its frame and what stands in it, in `height` lines.
#[verifier::opaque]
pub open spec fn panel(
    styled: bool,
    card: GameCard,
    competition: Competition,
    game_count: nat,
    width: nat,
    height: nat,
    now: Seq<char>,
) -> Seq<Seq<char>> {
    let inner = less(width, 2);
    let body = resized(
        panel_lines(styled, card, less(inner, 2), less(height, 5)),
        less(height, 5),
        Seq::empty(),
    );
    first_lines(
        seq![top_line(styled, panel_title(styled, card, competition), inner)] + framed_rows(
            styled,
            body,
            inner,
        ) + panel_foot(styled, card, game_count, width, now),
        height,
    )
}

/// A panel has as many lines as it is asked for.
pub proof fn law_panel_height(
    styled: bool,
    card: GameCard,
    competition: Competition,
    game_count: nat,
    width: nat,
    height: nat,
    now: Seq<char>,
)
    ensures
        panel(styled, card, competition, game_count, width, height, now).len() == height,
{
    reveal(panel);
}

/// The competitions share the panel of a game, all but its title.
pub proof fn law_competitions_share_panel(
    styled: bool,
    card: GameCard,
    competition: Competition,
    other: Competition,
    game_count: nat,
    width: nat,
    height: nat,
    now: Seq<char>,
)
    requires
        height > 0,
    ensures
        panel(styled, card, competition, game_count, width, height, now).skip(1) == panel(
            styled,
            card,
            other,
            game_count,
            width,
            height,
            now,
        ).skip(1),
{
    reveal(panel);
}

/// Whether all that is written in a panel fits in it: its title, what stands in it, the
/// keys and the caption.
pub open spec fn panel_fits(
    styled: bool,
    card: GameCard,
    competition: Competition,
    game_count: nat,
    width: nat,
    height: nat,
    now: Seq<char>,
) -> bool {
    &&& width >= 5
    &&& fits(" "@ + panel_title(styled, card, competition) + " "@, (width - 3) as nat)
    &&& forall|i: int|
        0 <= i < panel_lines(styled, card, (width - 4) as nat, less(height, 5)).len() ==> fits(
            #[trigger] panel_lines(styled, card, (width - 4) as nat, less(height, 5))[i],
            (width - 4) as nat,
        )
    &&& fits(keys_line(styled, now), (width - 4) as nat)
    &&& fits(caption(styled, card, game_count), width)
}

/// An empty line fits wherever there is a column.
proof fn lemma_nothing_fits(width: nat)
    requires
        width >= 1,
    ensures
        fits(Seq::empty(), width),
{
    let nothing = Seq::<char>::empty();
    assert(nothing.map_values(|c: char| on_one_line(c)) =~= nothing);
    lemma_shown_unescaped(nothing);
}

/// Draws the panel of a game. `now` is the time of day in its foot. Where all that is
/// written fits, every line takes the columns of the panel; all that is plain fits.
#[verifier::spinoff_prover]
#[verifier::rlimit(40)]
pub fn render_panel(
    styled: bool,
    card: &GameCard,
    competition: Competition,
    game_count: usize,
    width: usize,
    panel_height: usize,
    now: &str,
) -> (lines: Vec<String>)
    requires
        card.index < usize::MAX,
    ensures
        texts(lines@) == panel(
            styled,
            *card,
            competition,
            game_count as nat,
            width as nat,
            panel_height as nat,
            now@,
        ),
        lines@.len() == panel_height,
        panel_fits(
            styled,
            *card,
            competition,
            game_count as nat,
            width as nat,
            panel_height as nat,
            now@,
        ) ==> forall|i: int|
            0 <= i < panel_height ==> spans((#[trigger] lines@[i])@, width as nat),
        plain_card(*card) && is_plain(now@) && width >= 5 ==> forall|i: int|
            0 <= i < panel_height ==> spans((#[trigger] lines@[i])@, width as nat),
{
    proof {
        reveal(panel);
        law_panel_height(
            styled,
            *card,
            competition,
            game_count as nat,
            width as nat,
            panel_height as nat,
            now@,
        );
    }
    let inner: usize = if width > 2 { width - 2 } else { 0 };
    let body_height: usize = if panel_height > 5 { panel_height - 5 } else { 0 };
    let title = dim(styled, competition.panel_label()).concat(" · ").concat(
        &status_text(styled, card),
    );
    let body = panel_body(styled, card, if inner > 2 { inner - 2 } else { 0 }, body_height);
    let top = top_border(styled, &title, inner);
    let rows = frame_rows(styled, &body, body_height, inner);
    let foot = draw_foot(styled, card, game_count, width, now);
    let ghost given = texts(body@);
    let ghost drawn = seq![top@] + texts(rows@) + texts(foot@);
    let ghost fitting = panel_fits(
        styled,
        *card,
        competition,
        game_count as nat,
        width as nat,
        panel_height as nat,
        now@,
    );
    proof {
        if plain_card(*card) && is_plain(now@) && width >= 5 {
            law_plain_card_fits(
                styled,
                *card,
                competition,
                game_count as nat,
                width as nat,
                panel_height as nat,
                now@,
            );
        }
        if fitting {
            let all = resized(given, body_height as nat, Seq::empty());
            lemma_nothing_fits((inner - 2) as nat);
            assert forall|i: int| 0 <= i < drawn.len() implies spans(
                #[trigger] drawn[i],
                width as nat,
            ) by {
                if 1 <= i < 1 + body_height {
                    if i - 1 < given.len() {
                        assert(all[i - 1] == given[i - 1]);
                    } else {
                        assert(all[i - 1] == Seq::<char>::empty());
                    }
                    assert(drawn[i] == rows@[i - 1]@);
                } else if i > body_height {
                    assert(drawn[i] == foot@[i - 1 - body_height]@);
                }
            }
        }
    }
    let lines = stack(top, rows, foot, panel_height);
    assert(texts(lines@).len() == lines@.len());
    proof {
        assert forall|i: int| fitting && 0 <= i < panel_height implies spans(
            (#[trigger] lines@[i])@,
            width as nat,
        ) by {
            assert(lines@[i]@ == texts(lines@)[i]);
            assert(texts(lines@)[i] == drawn[i]);
        }
    }
    lines
}

/// The rows of a panel, from its top: the runs of the away team and of the home team, the
/// diamond with the counts beside it, the batter, the pitcher, the table of innings and the
/// plays.
#[verifier::spinoff_prover]
#[verifier::rlimit(40)]
pub proof fn law_rows_of_a_panel(styled: bool, card: GameCard, width: nat, height: nat, k: int)
    ensures
        ({
            let rows = panel_lines(styled, card, width, height);
            let table = inning_rows(styled, card, width);
            let top = 14 + table.len();
            let plays = card.plays(
                if height > top {
                    (height - top) as nat
                } else {
                    1
                },
            );
            let balls = if card.state is Some {
                counted_as(card.state->0.ball)
            } else {
                0
            };
            let strikes = if card.state is Some {
                counted_as(card.state->0.strike)
            } else {
                0
            };
            let outs = if card.state is Some {
                counted_as(card.state->0.out)
            } else {
                0
            };
            &&& rows.len() == (if height <= top + plays.len() {
                height
            } else {
                top + plays.len()
            })
            &&& height > 0 ==> rows[0] == score_line(
                styled,
                card.game.away_team_name@,
                card.away_runs(),
                card.attack() == Some(Side::Away),
            )
            &&& height > 1 ==> rows[1] == score_line(
                styled,
                card.game.home_team_name@,
                card.home_runs(),
                card.attack() == Some(Side::Home),
            )
            &&& height > 2 ==> rows[2].len() == 0
            &&& 0 <= k < 5 && height > 3 + k ==> rows[3 + k] == diamond(styled, card.runners())[k]
                + seq![' ', ' '] + count_rows(styled, balls, strikes, outs)[k]
            &&& height > 8 ==> rows[8].len() == 0
            &&& height > 9 ==> rows[9] == labelled(styled, "타자"@, card.batter_text(styled))
            &&& height > 10 ==> rows[10] == labelled(styled, "투수"@, card.pitcher_text(styled))
            &&& height > 11 ==> rows[11].len() == 0
            &&& 0 <= k < table.len() && height > 12 + k ==> rows[12 + k] == table[k]
            &&& height > 12 + table.len() ==> rows[(12 + table.len()) as int].len() == 0
            &&& height > 13 + table.len() ==> rows[(13 + table.len()) as int] == in_dim(
                styled,
                "─ 최근 플레이 ─"@,
            )
            &&& 0 <= k < plays.len() && height > top + k ==> rows[(top + k) as int] == "  "@
                + in_dim(styled, "▸"@) + " "@ + plays[k]
        }),
{
    reveal(panel_head);
    reveal(panel_lines);
    reveal_strlit("  ");
    assert("  "@ =~= seq![' ', ' ']);
    let head = panel_head(styled, card, width);
    let table = inning_rows(styled, card, width);
    assert(head.len() == 14 + table.len());
    let plays = card.plays(plays_wanted(height, head.len()));
    let drawn = plays.map_values(|play: Seq<char>| play_line(styled, play));
    let all = head + drawn;
    assert(panel_lines(styled, card, width, height) == first_lines(all, height));
    if 0 <= k < 5 {
        assert(head[3 + k] == field_rows(styled, card)[k]);
    }
    assert(head[9] == labelled(styled, "타자"@, card.batter_text(styled)));
    assert(head[10] == labelled(styled, "투수"@, card.pitcher_text(styled)));
    if 0 <= k < table.len() {
        assert(head[12 + k] == table[k]);
    }
    if 0 <= k < plays.len() {
        assert(all[(14 + table.len() + k) as int] == drawn[k]);
    }
}

/// A panel has a title in its top border, the rows of the game between its sides with empty
/// ones behind them, the keys and the time below a border, and its caption below the bottom
/// border.
#[verifier::spinoff_prover]
#[verifier::rlimit(40)]
pub proof fn law_frame_of_a_panel(
    styled: bool,
    card: GameCard,
    competition: Competition,
    game_count: nat,
    width: nat,
    height: nat,
    now: Seq<char>,
    k: int,
)
    requires
        height >= 5,
    ensures
        ({
            let lines = panel(styled, card, competition, game_count, width, height, now);
            let inner = less(width, 2);
            let rows = panel_lines(styled, card, less(width, 4), (height - 5) as nat);
            let side = in_dim(styled, "│"@);
            &&& lines.len() == height
            &&& lines[0] == top_line(styled, panel_title(styled, card, competition), inner)
            &&& 0 <= k < height - 5 ==> lines[1 + k] == side + " "@ + fitted(
                if k < rows.len() {
                    rows[k]
                } else {
                    Seq::empty()
                },
                less(width, 4),
            ) + " "@ + side
            &&& lines[height - 4] == in_dim(styled, "├"@ + repeated('─', inner) + "┤"@)
            &&& lines[height - 3] == side + " "@ + fitted(keys_line(styled, now), less(width, 4))
                + " "@ + side
            &&& lines[height - 2] == in_dim(styled, "└"@ + repeated('─', inner) + "┘"@)
            &&& lines[height - 1] == fitted(caption(styled, card, game_count), width)
        }),
{
    reveal(panel);
    let inner = less(width, 2);
    assert(less(inner, 2) == less(width, 4));
    let rows = panel_lines(styled, card, less(width, 4), (height - 5) as nat);
    law_rows_of_a_panel(styled, card, less(width, 4), (height - 5) as nat, 0);
    let body = resized(rows, (height - 5) as nat, Seq::empty());
    assert(body.len() == height - 5);
    if 0 <= k < height - 5 {
        assert(framed_rows(styled, body, inner)[k] == framed(styled, body[k], inner));
    }
}

/// The table of innings has a header and a row for each team, the away team's first, or says
/// that it waits for runs. It shows all innings played that there is room for: nine columns
/// go to the name, three to each inning, and it shows one inning at least and twelve at most.
pub proof fn law_table_of_innings(styled: bool, card: GameCard, width: nat)
    ensures
        ({
            let rows = inning_rows(styled, card, width);
            let (away, home) = card.lines();
            let played = if away.len() >= home.len() {
                away.len()
            } else {
                home.len()
            };
            let shown = innings_shown(away.len(), home.len(), width);
            &&& played == 0 ==> rows == seq![
                in_dim(styled, "  회"@),
                in_dim(styled, "  스코어보드 대기 중"@),
            ]
            &&& played > 0 ==> rows.len() == 3 && rows[0] == "  "@ + in_dim(
                styled,
                padded_right("회"@, 7),
            ) + " "@ + in_dim(styled, joined(inning_numbers(shown))) && rows[1] == team_line(
                styled,
                card.game.away_team_name@,
                away,
                shown,
            ) && rows[2] == team_line(styled, card.game.home_team_name@, home, shown)
            &&& shown <= played && shown <= 12
            &&& played > 0 ==> shown > 0
            &&& shown > 1 ==> 9 + 3 * shown <= width
            &&& shown < played && shown < 12 ==> 9 + 3 * (shown + 1) > width
        }),
{
    reveal(inning_rows);
}

/// Cells stand one blank apart, a number of one character at the right of two places, and the
/// innings are numbered from one.
pub proof fn law_cells_of_the_table(
    cells: Seq<Seq<char>>,
    next: Seq<char>,
    styled: bool,
    scores: Seq<Seq<char>>,
    count: nat,
    i: int,
)
    ensures
        joined(seq![next]) == next,
        cells.len() > 0 ==> joined(cells.push(next)) == joined(cells) + seq![' '] + next,
        next.len() == 0 ==> in_two_places(next) == seq![' ', ' '],
        next.len() == 1 ==> in_two_places(next) == seq![' '] + next,
        next.len() >= 2 ==> in_two_places(next) == next,
        inning_numbers(count).len() == count,
        0 <= i < count ==> inning_numbers(count)[i] == in_two_places(decimal((i + 1) as nat)),
        score_cell_row(styled, scores, count).len() == count,
        0 <= i < count && i < scores.len() && scores[i] != seq!['-'] ==> score_cell_row(
            styled,
            scores,
            count,
        )[i] == in_two_places(scores[i]),
        0 <= i < count && (i >= scores.len() || scores[i] == seq!['-']) ==> score_cell_row(
            styled,
            scores,
            count,
        )[i] == in_dim(styled, seq![' ', '-']),
{
    reveal_strlit(" ");
    reveal_strlit("-");
    reveal_strlit(" -");
    assert(" "@ =~= seq![' ']);
    assert("-"@ =~= seq!['-']);
    assert(" -"@ =~= seq![' ', '-']);
    assert(cells.push(next).drop_last() =~= cells);
    assert(next.len() == 0 ==> in_two_places(next) =~= seq![' ', ' ']);
    assert(next.len() == 1 ==> in_two_places(next) =~= seq![' '] + next);
    assert(next.len() >= 2 ==> in_two_places(next) =~= next);
}

/// The counts stand below one another: balls of three, strikes of two and outs of two, each in
/// its colour and behind its letter.
pub proof fn law_counts_of_the_field(styled: bool, balls: nat, strikes: nat, outs: nat)
    ensures
        ({
            let rows = count_rows(styled, balls, strikes, outs);
            &&& rows.len() == 5
            &&& rows[0].len() == 0 && rows[4].len() == 0
            &&& rows[1] == "B  "@ + dot_row(styled, balls, 3, DotColor::Green)
            &&& rows[2] == "S  "@ + dot_row(styled, strikes, 2, DotColor::Yellow)
            &&& rows[3] == "O  "@ + dot_row(styled, outs, 2, DotColor::Red)
        }),
{
}

/// A row of the table of innings is the name of the team in its colour, padded to seven
/// columns, and the cells of its runs.
pub proof fn law_row_of_a_team(
    styled: bool,
    team: Seq<char>,
    scores: Seq<Seq<char>>,
    innings: nat,
)
    ensures
        team_line(styled, team, scores, innings) == "  "@ + in_team_color(
            styled,
            team,
            padded_right(team, TEAM_COL as nat),
        ) + " "@ + joined(score_cell_row(styled, scores, innings)),
{
}

/// The title of a top border stands between blanks, cut to leave one column where it has to
/// be; the border goes on behind it to the corner.
pub proof fn law_top_border_holds_the_title(styled: bool, title: Seq<char>, inner: nat)
    ensures
        ({
            let raw = " "@ + title + " "@;
            let room = if inner > 0 {
                (inner - 1) as nat
            } else {
                0
            };
            let held = if columns(raw) > room {
                trimmed_end(fitted(raw, room))
            } else {
                raw
            };
            top_line(styled, title, inner) == in_dim(styled, "┌─"@) + held + in_dim(
                styled,
                repeated(
                    '─',
                    if columns(held) + 1 < inner {
                        (inner - columns(held) - 1) as nat
                    } else {
                        0
                    },
                ),
            ) + in_dim(styled, "┐"@)
        }),
{
}

/// While a game is on, its state is faint behind a green mark; afterwards it is faint, and
/// before it is cyan.
pub proof fn law_status_has_a_colour(styled: bool, card: GameCard)
    ensures
        card.game.started() ==> status_line(styled, card) == in_green(styled, "● LIVE"@) + " "@
            + in_dim(styled, card.status_words()),
        !card.game.started() && card.game.finished() ==> status_line(styled, card) == in_dim(
            styled,
            card.status_words(),
        ),
        !card.game.started() && !card.game.finished() ==> status_line(styled, card) == in_cyan(
            styled,
            card.status_words(),
        ),
{
}

/// A row of runs has the badge of its team in eight columns and its runs at the right of
/// three, in bold and in the colour of the team; the mark of the team at bat comes last.
pub proof fn law_row_of_runs(styled: bool, team: Seq<char>, runs: int)
    ensures
        score_line(styled, team, runs, false) == "  "@ + padded_right(badge(styled, team), 8)
            + "  "@ + padded_left(
            in_team_color(styled, team, in_bold(styled, signed_decimal(runs))),
            3,
        ),
        score_line(styled, team, runs, true) == score_line(styled, team, runs, false) + "  "@
            + in_cyan(styled, "◀ 공격"@),
{
    reveal_strlit("");
    let plain = score_line(styled, team, runs, false);
    assert(plain =~= "  "@ + padded_right(badge(styled, team), 8) + "  "@ + padded_left(
        in_team_color(styled, team, in_bold(styled, signed_decimal(runs))),
        3,
    ));
    assert(score_line(styled, team, runs, true) =~= plain + "  "@ + in_cyan(styled, "◀ 공격"@));
}

} // verus!
